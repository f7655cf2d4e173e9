//! Picking out the `node_modules` directories of a walk, one per project.
use vstd::prelude::*;
use crate::text::same_text;

verus! {

/// The name of the dependency directories that are looked for.
pub const NODE_MODULES: &'static str = "node_modules";

/// The shallowest depth, below the search root, at which a directory is
/// considered.
pub const MIN_DEPTH: usize = 1;

/// The deepest depth, below the search root, at which a directory is
/// considered.
pub const MAX_DEPTH: usize = 2;

/// An entry named `node_modules` that is a directory.
pub open spec fn is_node_modules(name: Seq<char>, is_dir: bool) -> bool {
    name == NODE_MODULES@ && is_dir
}

/// A depth at which the search looks: one or two levels below the root.
pub open spec fn in_search_depth(depth: nat) -> bool {
    MIN_DEPTH <= depth <= MAX_DEPTH
}

/// Whether an entry seen by the walk is reported, given the parent paths of
/// the entries reported before it: a `node_modules` directory within the
/// search depth whose parent has not been seen yet.
pub open spec fn admits(
    seen: Set<Seq<char>>,
    depth: nat,
    name: Seq<char>,
    is_dir: bool,
    parent: Seq<char>,
) -> bool {
    in_search_depth(depth) && is_node_modules(name, is_dir) && !seen.contains(parent)
}

/// The parent paths seen after an entry has been offered.
pub open spec fn seen_after(
    seen: Set<Seq<char>>,
    depth: nat,
    name: Seq<char>,
    is_dir: bool,
    parent: Seq<char>,
) -> Set<Seq<char>> {
    if admits(seen, depth, name, is_dir, parent) {
        seen.insert(parent)
    } else {
        seen
    }
}

/// An entry of the walk as the search sees it: depth below the root, name,
/// whether it is a directory, and the path of its parent.
pub type WalkEntry = (nat, Seq<char>, bool, Seq<char>);

/// The parent paths reported, in order, when the entries `es` are offered one
/// after the other to a search that has seen `seen`.
pub open spec fn reported(seen: Set<Seq<char>>, es: Seq<WalkEntry>) -> Seq<Seq<char>>
    decreases es.len(),
{
    if es.len() == 0 {
        Seq::empty()
    } else {
        let e = es[0];
        let rest = reported(seen_after(seen, e.0, e.1, e.2, e.3), es.drop_first());
        if admits(seen, e.0, e.1, e.2, e.3) {
            seq![e.3] + rest
        } else {
            rest
        }
    }
}

/// A walk that meets no `node_modules` directory reports nothing.
pub proof fn lemma_no_node_modules_reports_nothing(seen: Set<Seq<char>>, es: Seq<WalkEntry>)
    requires
        forall|i: int| 0 <= i < es.len() ==> !is_node_modules(#[trigger] es[i].1, es[i].2),
    ensures
        reported(seen, es) == Seq::<Seq<char>>::empty(),
    decreases es.len(),
{
    if es.len() > 0 {
        let e = es[0];
        assert forall|i: int| 0 <= i < es.drop_first().len() implies !is_node_modules(
            #[trigger] es.drop_first()[i].1,
            es.drop_first()[i].2,
        ) by {
            assert(es.drop_first()[i] == es[i + 1]);
        }
        lemma_no_node_modules_reports_nothing(
            seen_after(seen, e.0, e.1, e.2, e.3),
            es.drop_first(),
        );
    }
}

/// `p` is the parent of one of `es` that is a `node_modules` directory one or
/// two levels below the root.
pub open spec fn parent_of_candidate(es: Seq<WalkEntry>, p: Seq<char>) -> bool {
    exists|i: int|
        0 <= i < es.len() && in_search_depth(#[trigger] es[i].0) && is_node_modules(es[i].1, es[i].2)
            && es[i].3 == p
}

/// Every reported parent is that of a `node_modules` directory one or two
/// levels below the root: deeper ones are never reported.
pub proof fn lemma_reported_within_depth(seen: Set<Seq<char>>, es: Seq<WalkEntry>)
    ensures
        forall|k: int|
            0 <= k < reported(seen, es).len() ==> parent_of_candidate(
                es,
                #[trigger] reported(seen, es)[k],
            ),
    decreases es.len(),
{
    if es.len() > 0 {
        let e = es[0];
        let next = seen_after(seen, e.0, e.1, e.2, e.3);
        let tail = es.drop_first();
        lemma_reported_within_depth(next, tail);
        let r = reported(seen, es);
        let rest = reported(next, tail);
        assert forall|k: int| 0 <= k < r.len() implies parent_of_candidate(es, #[trigger] r[k]) by {
            let j = if admits(seen, e.0, e.1, e.2, e.3) {
                k - 1
            } else {
                k
            };
            if j < 0 {
                assert(r[k] == es[0].3);
                assert(in_search_depth(es[0].0));
            } else {
                assert(r[k] == rest[j]);
                assert(parent_of_candidate(tail, rest[j]));
                let i = choose|i: int|
                    0 <= i < tail.len() && in_search_depth(#[trigger] tail[i].0) && is_node_modules(
                        tail[i].1,
                        tail[i].2,
                    ) && tail[i].3 == rest[j];
                assert(tail[i] == es[i + 1]);
                assert(in_search_depth(es[i + 1].0));
            }
        }
    }
}

/// Of two `node_modules` directories under the same parent, offered one
/// after the other, at most one is reported.
pub proof fn lemma_same_parent_counted_once(
    seen: Set<Seq<char>>,
    first: WalkEntry,
    second: WalkEntry,
)
    requires
        first.3 == second.3,
    ensures
        !(admits(seen, first.0, first.1, first.2, first.3) && admits(
            seen_after(seen, first.0, first.1, first.2, first.3),
            second.0,
            second.1,
            second.2,
            second.3,
        )),
{
}

/// Each parent path is reported at most once, and never one that had been
/// seen before: `node_modules` directories sharing a parent count once.
pub proof fn lemma_each_parent_reported_once(seen: Set<Seq<char>>, es: Seq<WalkEntry>)
    ensures
        reported(seen, es).no_duplicates(),
        forall|k: int| 0 <= k < reported(seen, es).len() ==> !seen.contains(
            #[trigger] reported(seen, es)[k],
        ),
    decreases es.len(),
{
    if es.len() > 0 {
        let e = es[0];
        let next = seen_after(seen, e.0, e.1, e.2, e.3);
        let tail = es.drop_first();
        lemma_each_parent_reported_once(next, tail);
        let rest = reported(next, tail);
        let r = reported(seen, es);
        if admits(seen, e.0, e.1, e.2, e.3) {
            assert forall|k: int| 0 <= k < r.len() implies !seen.contains(#[trigger] r[k]) by {
                if k > 0 {
                    assert(r[k] == rest[k - 1]);
                    assert(!next.contains(rest[k - 1]));
                }
            }
            assert forall|a: int, b: int| 0 <= a < r.len() && 0 <= b < r.len() && a != b implies r[a]
                != r[b] by {
                if a > 0 && b > 0 {
                    assert(r[a] == rest[a - 1] && r[b] == rest[b - 1]);
                } else if a == 0 {
                    assert(r[b] == rest[b - 1]);
                    assert(!next.contains(rest[b - 1]));
                } else {
                    assert(r[a] == rest[a - 1]);
                    assert(!next.contains(rest[a - 1]));
                }
            }
        }
    }
}

/// Whether a walk entry named `name` is a `node_modules` directory.
pub fn is_node_modules_dir(name: &str, is_dir: bool) -> (r: bool)
    ensures
        r == is_node_modules(name@, is_dir),
{
    same_text(name, NODE_MODULES) && is_dir
}

/// Whether a depth below the search root is one that the search looks at.
pub fn within_search_depth(depth: usize) -> (r: bool)
    ensures
        r == in_search_depth(depth as nat),
{
    MIN_DEPTH <= depth && depth <= MAX_DEPTH
}

/// The decisions of the search: the parent paths of the `node_modules`
/// directories reported so far, each kept once.
pub struct Locator {
    visited: Vec<String>,
}

impl View for Locator {
    type V = Set<Seq<char>>;

    closed spec fn view(&self) -> Set<Seq<char>> {
        Set::new(|p: Seq<char>| exists|j: int| 0 <= j < self.visited.len() && #[trigger] self.visited[j]@ == p)
    }
}

impl Locator {
    /// A search that has seen nothing yet.
    pub fn new() -> (r: Locator)
        ensures
            r@ == Set::<Seq<char>>::empty(),
    {
        let r = Locator { visited: Vec::new() };
        assert(r@ =~= Set::<Seq<char>>::empty());
        r
    }

    /// Whether a parent path has been reported already.
    pub fn has_seen(&self, parent: &String) -> (r: bool)
        ensures
            r == self@.contains(parent@),
    {
        let mut i: usize = 0;
        while i < self.visited.len()
            invariant
                i <= self.visited.len(),
                forall|j: int| 0 <= j < i ==> self.visited[j]@ != parent@,
            decreases self.visited.len() - i,
        {
            if self.visited[i] == *parent {
                assert(self@.contains(parent@));
                return true;
            }
            i = i + 1;
        }
        false
    }

    /// Offers one entry of the walk: its depth below the root, its name,
    /// whether it is a directory and the path of its parent. Returns whether
    /// the entry is to be reported; if so its parent is remembered, so that
    /// no second `node_modules` under the same parent is reported.
    pub fn offer(&mut self, depth: usize, name: &str, is_dir: bool, parent: &str) -> (r: bool)
        ensures
            r == admits(old(self)@, depth as nat, name@, is_dir, parent@),
            final(self)@ == seen_after(old(self)@, depth as nat, name@, is_dir, parent@),
    {
        if !within_search_depth(depth) || !is_node_modules_dir(name, is_dir) {
            return false;
        }
        let parent = String::from_str(parent);
        if self.has_seen(&parent) {
            return false;
        }
        let ghost before = self.visited@;
        self.visited.push(parent);
        proof {
            let p = self.visited@.last()@;
            assert(self.visited[before.len() as int]@ == p);
            assert forall|q: Seq<char>| self@.contains(q) == old(self)@.insert(p).contains(q) by {
                if old(self)@.contains(q) {
                    let j = choose|j: int| 0 <= j < before.len() && #[trigger] before[j]@ == q;
                    assert(self.visited[j]@ == q);
                }
                if self@.contains(q) && q != p {
                    let j = choose|j: int| 0 <= j < self.visited.len() && #[trigger] self.visited[j]@ == q;
                    assert(j < before.len());
                    assert(before[j]@ == q);
                }
            }
            assert(self@ =~= old(self)@.insert(p));
        }
        true
    }
}

} // verus!
