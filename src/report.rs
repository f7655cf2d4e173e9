//! The result table: one row per project, largest first, and a total.
use vstd::prelude::*;
use vstd::multiset::Multiset;
use crate::text::{
    chars_of, decimal, digit, digit_char, pad_left, pad_right, push_chars, push_decimal,
    push_padded_left, push_padded_right, string_of,
};

verus! {

broadcast use vstd::seq_lib::group_to_multiset_ensures;

/// One reported project.
pub struct Row {
    /// Bytes held by the project's `node_modules` tree.
    pub size: u128,
    /// The name of the project directory (the parent of `node_modules`).
    pub name: String,
    /// How long ago the project directory was modified, as shown in the table.
    pub last_modified: String,
}

/// The sum of the sizes of `rows`.
pub open spec fn sum_sizes(rows: Seq<Row>) -> nat
    decreases rows.len(),
{
    if rows.len() == 0 {
        0
    } else {
        sum_sizes(rows.drop_last()) + rows.last().size as nat
    }
}

/// Rows ordered from the largest size to the smallest.
pub open spec fn sorted_by_size(rows: Seq<Row>) -> bool {
    forall|i: int, j: int| 0 <= i < j < rows.len() ==> rows[i].size >= rows[j].size
}

/// A byte count in hundredths of a megabyte (1,000,000 bytes), rounded to
/// the nearest, halves upward.
pub open spec fn hundredths_of_mb(bytes: nat) -> nat {
    (bytes + 5000) / 10000
}

/// A byte count written in megabytes with two decimals.
pub open spec fn mb_text(bytes: nat) -> Seq<char> {
    let h = hundredths_of_mb(bytes);
    decimal(h / 100) + seq!['.', digit_char((h % 100) / 10), digit_char(h % 10)]
}

/// The heading line of the table.
pub open spec fn header_text() -> Seq<char> {
    pad_left("Size (MB)"@, 15) + seq![' '] + pad_right("Project"@, 30) + seq![' '] + pad_right(
        "Last Modified"@,
        20,
    )
}

/// The line of the table for one row.
pub open spec fn row_text(row: Row) -> Seq<char> {
    pad_left(mb_text(row.size as nat), 15) + seq![' '] + pad_right(row.name@, 30) + seq![' ']
        + pad_right(row.last_modified@, 20)
}

/// The closing line of the table.
pub open spec fn total_text(total: nat) -> Seq<char> {
    "Total Size: "@ + mb_text(total) + " MB"@
}

/// All lines of the table for `rows`, in their order: the heading, one line
/// per row, an empty line and the total of all sizes.
pub open spec fn table_text(rows: Seq<Row>) -> Seq<Seq<char>> {
    seq![header_text()] + rows.map_values(|r: Row| row_text(r)) + seq![
        Seq::<char>::empty(),
        total_text(sum_sizes(rows)),
    ]
}

/// The characters of each line.
pub open spec fn texts_of(lines: Seq<String>) -> Seq<Seq<char>> {
    lines.map_values(|l: String| l@)
}

/// With no rows the table holds its heading, an empty line and a total of
/// zero megabytes.
pub proof fn lemma_empty_table()
    ensures
        table_text(Seq::empty()) == seq![
            header_text(),
            Seq::<char>::empty(),
            "Total Size: 0.00 MB"@,
        ],
{
    reveal_strlit("Total Size: ");
    reveal_strlit(" MB");
    reveal_strlit("Total Size: 0.00 MB");
    assert(decimal(0) == seq!['0']);
    assert(mb_text(0) =~= seq!['0', '.', '0', '0']);
    assert(total_text(0) =~= "Total Size: 0.00 MB"@);
    assert(Seq::<Row>::empty().map_values(|r: Row| row_text(r)) =~= Seq::<Seq<char>>::empty());
    assert(table_text(Seq::empty()) =~= seq![
        header_text(),
        Seq::<char>::empty(),
        "Total Size: 0.00 MB"@,
    ]);
}

/// The figure shown for a size is within half a hundredth of a megabyte of
/// the exact size: `bytes / 1,000,000` rounded to two decimals.
pub proof fn lemma_mb_rounding(bytes: nat)
    ensures
        hundredths_of_mb(bytes) * 10000 <= bytes + 5000,
        bytes < hundredths_of_mb(bytes) * 10000 + 5000,
{
}

/// The total of two rows is the sum of their sizes.
pub proof fn lemma_total_of_two(a: Row, b: Row)
    ensures
        sum_sizes(seq![a, b]) == a.size + b.size,
{
    assert(seq![a, b].drop_last() =~= seq![a]);
    assert(seq![a].drop_last() =~= Seq::<Row>::empty());
    assert(sum_sizes(Seq::<Row>::empty()) == 0);
    assert(seq![a].last() == a);
    assert(sum_sizes(seq![a]) == a.size);
    assert(seq![a, b].last() == b);
}

/// Taking one row out lowers the total by that row's size.
proof fn lemma_sum_sizes_remove(rows: Seq<Row>, j: int)
    requires
        0 <= j < rows.len(),
    ensures
        sum_sizes(rows) == sum_sizes(rows.remove(j)) + rows[j].size,
    decreases rows.len(),
{
    if j == rows.len() - 1 {
        assert(rows.remove(j) =~= rows.drop_last());
    } else {
        assert(rows.remove(j).drop_last() =~= rows.drop_last().remove(j));
        assert(rows.remove(j).last() == rows.last());
        lemma_sum_sizes_remove(rows.drop_last(), j);
    }
}

/// The total does not depend on the order of the rows: rows holding the same
/// entries, in any order, have the same total.
pub proof fn lemma_reordering_keeps_total(a: Seq<Row>, b: Seq<Row>)
    requires
        a.to_multiset() == b.to_multiset(),
    ensures
        sum_sizes(a) == sum_sizes(b),
    decreases a.len(),
{
    if a.len() == 0 {
        assert(a.to_multiset().len() == 0);
        assert(b.to_multiset().len() == b.len());
    } else {
        let x = a.last();
        assert(a =~= a.drop_last().push(x));
        assert(a.to_multiset().count(x) > 0);
        assert(b.contains(x));
        let j = choose|j: int| 0 <= j < b.len() && b[j] == x;
        assert(b.remove(j).to_multiset() =~= a.drop_last().to_multiset());
        lemma_reordering_keeps_total(a.drop_last(), b.remove(j));
        lemma_sum_sizes_remove(b, j);
    }
}

/// The sum of the sizes of `rows`, or `None` when it does not fit in a `u128`.
pub fn total_size(rows: &Vec<Row>) -> (r: Option<u128>)
    ensures
        match r {
            Some(t) => t == sum_sizes(rows@),
            None => sum_sizes(rows@) > u128::MAX,
        },
{
    let mut sum: u128 = 0;
    let mut i: usize = 0;
    while i < rows.len()
        invariant
            i <= rows.len(),
            sum == sum_sizes(rows@.subrange(0, i as int)),
        decreases rows.len() - i,
    {
        assert(rows@.subrange(0, i + 1).drop_last() =~= rows@.subrange(0, i as int));
        match sum.checked_add(rows[i].size) {
            Some(s) => sum = s,
            None => {
                proof { lemma_sum_sizes_prefix(rows@, i + 1); }
                return None;
            },
        }
        i = i + 1;
    }
    assert(rows@.subrange(0, i as int) =~= rows@);
    Some(sum)
}

/// The sizes of a prefix never add up to more than those of the whole.
proof fn lemma_sum_sizes_prefix(rows: Seq<Row>, k: int)
    requires
        0 <= k <= rows.len(),
    ensures
        sum_sizes(rows.subrange(0, k)) <= sum_sizes(rows),
    decreases rows.len(),
{
    if k < rows.len() {
        assert(rows.drop_last().subrange(0, k) =~= rows.subrange(0, k));
        lemma_sum_sizes_prefix(rows.drop_last(), k);
    } else {
        assert(rows.subrange(0, k) =~= rows);
    }
}

/// Orders rows from the largest size to the smallest; the same rows come out.
pub fn sort_by_size(rows: Vec<Row>) -> (r: Vec<Row>)
    ensures
        sorted_by_size(r@),
        r@.to_multiset() == rows@.to_multiset(),
{
    let mut rest = rows;
    let mut out: Vec<Row> = Vec::new();
    while rest.len() > 0
        invariant
            sorted_by_size(out@),
            rest@.to_multiset().add(out@.to_multiset()) == rows@.to_multiset(),
        decreases rest.len(),
    {
        let ghost before = rest@;
        let row = rest.pop().unwrap();
        assert(before =~= rest@.push(row));
        let mut j: usize = 0;
        while j < out.len() && out[j].size >= row.size
            invariant
                j <= out.len(),
                forall|k: int| 0 <= k < j ==> out@[k].size >= row.size,
            decreases out.len() - j,
        {
            j = j + 1;
        }
        let ghost prev = out@;
        out.insert(j, row);
        proof {
            assert forall|a: int, b: int| 0 <= a < b < out@.len() implies out@[a].size
                >= out@[b].size by {
                if b < j {
                } else if b == j {
                } else if a < j {
                    assert(out@[b] == prev[b - 1]);
                    if j < prev.len() {
                        assert(prev[j as int].size < row.size);
                        assert(prev[j as int].size >= prev[b - 1].size);
                    }
                } else if a == j {
                    assert(prev[j as int].size < row.size);
                    if j < b - 1 {
                        assert(prev[j as int].size >= prev[b - 1].size);
                    }
                } else {
                    assert(out@[a] == prev[a - 1]);
                    assert(out@[b] == prev[b - 1]);
                }
            }
            assert(out@.to_multiset() == prev.to_multiset().insert(row));
            assert(rest@.to_multiset().add(out@.to_multiset()) =~= before.to_multiset().add(
                prev.to_multiset(),
            ));
        }
    }
    assert(rest@.to_multiset() =~= Multiset::empty());
    assert(out@.to_multiset() =~= rows@.to_multiset());
    out
}

/// Appends the megabyte figure of `bytes` to `out`, as `mb_text` writes it.
fn push_mb(out: &mut Vec<char>, bytes: u128)
    ensures
        final(out)@ == old(out)@ + mb_text(bytes as nat),
{
    let rounding: u128 = if bytes % 10000 >= 5000 {
        1
    } else {
        0
    };
    let h: u128 = bytes / 10000 + rounding;
    assert(h == hundredths_of_mb(bytes as nat));
    push_decimal(out, h / 100);
    out.push('.');
    out.push(digit(((h % 100) / 10) as u8));
    out.push(digit((h % 10) as u8));
    assert(out@ =~= old(out)@ + mb_text(bytes as nat));
}

/// The heading line of the table.
pub fn header_line() -> (r: String)
    ensures
        r@ == header_text(),
{
    let mut out: Vec<char> = Vec::new();
    push_padded_left(&mut out, &chars_of("Size (MB)"), 15);
    out.push(' ');
    push_padded_right(&mut out, &chars_of("Project"), 30);
    out.push(' ');
    push_padded_right(&mut out, &chars_of("Last Modified"), 20);
    assert(out@ =~= header_text());
    string_of(&out)
}

/// The line of the table for one row.
pub fn row_line(row: &Row) -> (r: String)
    ensures
        r@ == row_text(*row),
{
    let mut mb: Vec<char> = Vec::new();
    push_mb(&mut mb, row.size);
    assert(mb@ =~= mb_text(row.size as nat));
    let mut out: Vec<char> = Vec::new();
    push_padded_left(&mut out, &mb, 15);
    out.push(' ');
    push_padded_right(&mut out, &chars_of(row.name.as_str()), 30);
    out.push(' ');
    push_padded_right(&mut out, &chars_of(row.last_modified.as_str()), 20);
    assert(out@ =~= row_text(*row));
    string_of(&out)
}

/// The closing line of the table for a total of `total` bytes.
pub fn total_line(total: u128) -> (r: String)
    ensures
        r@ == total_text(total as nat),
{
    let mut out = chars_of("Total Size: ");
    push_mb(&mut out, total);
    push_chars(&mut out, &chars_of(" MB"));
    assert(out@ =~= total_text(total as nat));
    string_of(&out)
}

/// The lines of the table for `rows`, in the order given, as `table_text`
/// states them; `None` when the total of the sizes does not fit in a `u128`.
pub fn render(rows: &Vec<Row>) -> (r: Option<Vec<String>>)
    ensures
        r is Some <==> sum_sizes(rows@) <= u128::MAX,
        r is Some ==> texts_of(r->0@) == table_text(rows@),
{
    let total = match total_size(rows) {
        Some(t) => t,
        None => return None,
    };
    let mut lines: Vec<String> = Vec::new();
    lines.push(header_line());
    let mut i: usize = 0;
    while i < rows.len()
        invariant
            i <= rows.len(),
            lines.len() == i + 1,
            lines[0]@ == header_text(),
            forall|k: int| 0 <= k < i ==> #[trigger] lines[k + 1]@ == row_text(rows@[k]),
        decreases rows.len() - i,
    {
        let line = row_line(&rows[i]);
        lines.push(line);
        i = i + 1;
    }
    lines.push(String::new());
    lines.push(total_line(total));
    let ghost n = rows@.len();
    assert(lines@.len() == n + 3);
    assert forall|k: int| 0 <= k < n + 3 implies #[trigger] texts_of(lines@)[k]
        == table_text(rows@)[k] by {
        if 1 <= k <= n {
            assert(lines[(k - 1) + 1]@ == row_text(rows@[k - 1]));
        }
    }
    assert(texts_of(lines@) =~= table_text(rows@));
    Some(lines)
}

/// The table for `rows`: largest first, then the empty line and the total.
/// `None` when the total of the sizes does not fit in a `u128`.
pub fn report(rows: Vec<Row>) -> (r: Option<Vec<String>>)
    ensures
        r is Some <==> sum_sizes(rows@) <= u128::MAX,
        r is Some ==> exists|s: Seq<Row>|
            sorted_by_size(s) && s.to_multiset() == rows@.to_multiset() && texts_of(r->0@)
                == #[trigger] table_text(s),
{
    let ghost given = rows@;
    let sorted = sort_by_size(rows);
    proof {
        lemma_reordering_keeps_total(sorted@, given);
    }
    let r = render(&sorted);
    assert(r is Some ==> texts_of(r->0@) == table_text(sorted@));
    r
}

} // verus!
