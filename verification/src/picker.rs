//! The picker's rows: columns aligned by display width, home directories shortened, controls
//! escaped.
use vstd::prelude::*;

use crate::external::{text_width, utf8_string, width};
use crate::git::row_texts;
use crate::path::{
    opt_bytes, path_id, path_identity,
    is_absolute, path_eq, path_is_absolute, paths_equal, strip_path_prefix, strip_path_prefix_of,
};
use crate::text::{
    chars_of, decimal, decimal_string, escape_controls, escape_controls_of, find_char, index_of,
    opt_str_text, opt_text, parse_unsigned, parse_usize, push_all, push_str, slice_chars,
    split_once, string_of, strip_suffix, texts, trim_end, trim_end_chars, IntError,
};
use vstd::utf8::{decode_utf8, valid_utf8};

verus! {

/// What follows the first of `homes` that `path` lies under.
pub open spec fn home_relative(path: Seq<char>, homes: Seq<Seq<char>>) -> Option<Seq<char>>
    decreases homes.len(),
{
    if homes.len() == 0 {
        None
    } else {
        match strip_path_prefix(path, homes[0]) {
            Some(rel) => Some(rel),
            None => home_relative(path, homes.drop_first()),
        }
    }
}

/// `path` with a leading home directory written as `~`.
pub open spec fn shortened(path: Seq<char>, homes: Seq<Seq<char>>) -> Seq<char> {
    match home_relative(path, homes) {
        Some(rel) => if rel.len() == 0 {
            seq!['~']
        } else {
            seq!['~', '/'] + rel
        },
        None => path,
    }
}

/// A picker row as shown: the path shortened, then control characters escaped in every field.
pub open spec fn display_row(row: Seq<Seq<char>>, homes: Seq<Seq<char>>) -> Seq<Seq<char>> {
    seq![
        escape_controls(row[0]),
        escape_controls(row[1]),
        escape_controls(shortened(row[2], homes)),
        escape_controls(row[3]),
    ]
}

/// The display width of each field of each row.
pub open spec fn field_widths(rows: Seq<Seq<Seq<char>>>) -> Seq<Seq<int>> {
    Seq::new(rows.len(), |k: int| Seq::new(4, |f: int| text_width(rows[k][f]) as int))
}

/// A table of field widths as integers.
pub open spec fn widths_table(ws: Seq<[usize; 4]>) -> Seq<Seq<int>> {
    Seq::new(ws.len(), |k: int| Seq::new(4, |f: int| ws[k]@[f] as int))
}

/// Width of column `i` for rows whose fields are `ws` wide: the widest field in it, at least
/// one column for the marker.
pub open spec fn column_width(ws: Seq<Seq<int>>, i: int) -> int
    decreases ws.len(),
{
    if ws.len() == 0 {
        if i == 0 {
            1
        } else {
            0
        }
    } else {
        let w = column_width(ws.drop_last(), i);
        let f = ws.last()[i];
        if f > w {
            f
        } else {
            w
        }
    }
}

/// Index of the last non-empty field (0 when all are empty).
pub open spec fn last_filled(row: Seq<Seq<char>>) -> int {
    if row[3].len() > 0 {
        3
    } else if row[2].len() > 0 {
        2
    } else if row[1].len() > 0 {
        1
    } else {
        0
    }
}

/// `n` spaces.
pub open spec fn spaces(n: int) -> Seq<char> {
    Seq::new(n as nat, |k: int| ' ')
}

/// Field `i` of a row whose fields are `own` wide, followed, before the last shown field, by the
/// padding to its column's width and two more spaces.
pub open spec fn padded(row: Seq<Seq<char>>, own: Seq<int>, ws: Seq<Seq<int>>, i: int, last: int) -> Seq<
    char,
> {
    row[i] + if i < last {
        spaces(column_width(ws, i) - own[i] + 2)
    } else {
        seq![]
    }
}

/// The first `k` padded fields of a row.
pub open spec fn label_prefix(
    row: Seq<Seq<char>>,
    own: Seq<int>,
    ws: Seq<Seq<int>>,
    last: int,
    k: int,
) -> Seq<char>
    decreases k,
{
    if k <= 0 {
        seq![]
    } else {
        label_prefix(row, own, ws, last, k - 1) + padded(row, own, ws, k - 1, last)
    }
}

/// A row's label: its fields up to the last non-empty one, aligned in the columns of a table of
/// rows whose fields are `ws` wide (the row's own fields are `own` wide).
pub open spec fn row_label(row: Seq<Seq<char>>, own: Seq<int>, ws: Seq<Seq<int>>) -> Seq<char> {
    label_prefix(row, own, ws, last_filled(row), last_filled(row) + 1)
}

/// Entries for rows as shown whose fields are `ws` wide: entry `k` has id `k` and row `k`'s
/// label.
pub open spec fn labelled_choices(shown: Seq<Seq<Seq<char>>>, ws: Seq<Seq<int>>) -> Seq<
    (Seq<char>, Seq<char>),
> {
    Seq::new(shown.len(), |k: int| (decimal(k as nat), row_label(shown[k], ws[k], ws)))
}

/// The rows as shown.
pub open spec fn display_rows(rows: Seq<[String; 4]>, homes: Seq<Seq<char>>) -> Seq<
    Seq<Seq<char>>,
> {
    Seq::new(rows.len(), |k: int| display_row(row_texts(rows[k]), homes))
}

fn shorten_path(path: &Vec<char>, homes: &Vec<String>) -> (r: Vec<char>)
    ensures
        r@ == shortened(path@, texts(homes@)),
{
    let ghost hs = texts(homes@);
    let mut i: usize = 0;
    assert(hs.skip(0) =~= hs);
    while i < homes.len()
        invariant
            i <= homes@.len(),
            hs == texts(homes@),
            home_relative(path@, hs) == home_relative(path@, hs.skip(i as int)),
        decreases homes@.len() - i,
    {
        let ghost rest = hs.skip(i as int);
        assert(rest[0] == homes@[i as int]@);
        assert(rest.drop_first() =~= hs.skip(i + 1));
        let home = chars_of(homes[i].as_str());
        match strip_path_prefix_of(path.as_slice(), home.as_slice()) {
            Some(rel) => {
                let mut out: Vec<char> = Vec::new();
                out.push('~');
                if rel.len() > 0 {
                    out.push('/');
                    push_all(&mut out, rel.as_slice());
                }
                assert(out@ =~= shortened(path@, hs));
                return out;
            },
            None => {},
        }
        i = i + 1;
    }
    assert(hs.skip(i as int) =~= Seq::<Seq<char>>::empty());
    path.clone()
}

fn push_spaces(out: &mut Vec<char>, n: usize)
    ensures
        final(out)@ == old(out)@ + spaces(n as int),
{
    let mut i: usize = 0;
    while i < n
        invariant
            i <= n,
            out@ == old(out)@ + spaces(i as int),
        decreases n - i,
    {
        out.push(' ');
        i = i + 1;
        assert(out@ =~= old(out)@ + spaces(i as int));
    }
}

/// Picker entries for rows already as shown, given how wide each of their fields is on screen:
/// entry `k` has id `k` and as label row `k`'s fields up to its last non-empty one, each but the
/// last padded to its column's width (the widest field in the column, at least one for the
/// marker) and two more spaces.
pub fn align_rows(shown: &Vec<[String; 4]>, widths: &Vec<[usize; 4]>) -> (r: Vec<(String, String)>)
    requires
        shown@.len() == widths@.len(),
    ensures
        choice_views(r@) == labelled_choices(rows_texts(shown@), widths_table(widths@)),
{
    let ghost rows = rows_texts(shown@);
    let ghost ws = widths_table(widths@);
    let n = shown.len();
    // Column widths.
    let mut cols: Vec<usize> = Vec::new();
    cols.push(1);
    cols.push(0);
    cols.push(0);
    cols.push(0);
    let mut k: usize = 0;
    while k < n
        invariant
            n == widths@.len() == ws.len(),
            ws == widths_table(widths@),
            k <= n,
            cols@.len() == 4,
            forall|f: int| 0 <= f < 4 ==> #[trigger] cols@[f] == column_width(ws.take(k as int), f),
        decreases n - k,
    {
        let mut f: usize = 0;
        while f < 4
            invariant
                k < n == widths@.len() == ws.len(),
                ws == widths_table(widths@),
                f <= 4,
                cols@.len() == 4,
                forall|g: int|
                    0 <= g < f ==> #[trigger] cols@[g] == column_width(ws.take(k + 1), g),
                forall|g: int|
                    f <= g < 4 ==> #[trigger] cols@[g] == column_width(ws.take(k as int), g),
            decreases 4 - f,
        {
            let w = widths[k][f];
            proof {
                assert(ws.take(k + 1).drop_last() =~= ws.take(k as int));
                assert(ws.take(k + 1).last() == ws[k as int]);
                assert(ws[k as int][f as int] == w as int);
            }
            if w > cols[f] {
                cols.set(f, w);
            }
            f = f + 1;
        }
        k = k + 1;
    }
    assert(ws.take(n as int) =~= ws);
    // Labels.
    let mut out: Vec<(String, String)> = Vec::new();
    let mut k: usize = 0;
    while k < n
        invariant
            n == shown@.len() == widths@.len() == ws.len() == rows.len(),
            rows == rows_texts(shown@),
            ws == widths_table(widths@),
            k <= n,
            cols@.len() == 4,
            forall|f: int| 0 <= f < 4 ==> #[trigger] cols@[f] == column_width(ws, f),
            out@.len() == k,
            forall|m: int|
                0 <= m < k ==> (#[trigger] choice_views(out@)[m]) == labelled_choices(rows, ws)[m],
        decreases n - k,
    {
        let fields = &shown[k];
        let ghost row = rows[k as int];
        let ghost own = ws[k as int];
        assert(row == row_texts(shown@[k as int]));
        assert(forall|g: int| 0 <= g < 4 ==> #[trigger] row[g] == fields@[g]@);
        let last: usize = if fields[3].as_str().unicode_len() > 0 {
            3
        } else if fields[2].as_str().unicode_len() > 0 {
            2
        } else if fields[1].as_str().unicode_len() > 0 {
            1
        } else {
            0
        };
        assert(last == last_filled(row));
        let mut label: Vec<char> = Vec::new();
        let mut i: usize = 0;
        while i <= last
            invariant
                last <= 3,
                last == last_filled(row),
                i <= last + 1,
                k < n == widths@.len() == ws.len(),
                ws == widths_table(widths@),
                own == ws[k as int],
                fields@.len() == 4,
                forall|g: int| 0 <= g < 4 ==> #[trigger] row[g] == fields@[g]@,
                cols@.len() == 4,
                forall|f: int| 0 <= f < 4 ==> #[trigger] cols@[f] == column_width(ws, f),
                label@ == label_prefix(row, own, ws, last as int, i as int),
            decreases last + 1 - i,
        {
            let field = chars_of(fields[i].as_str());
            push_all(&mut label, field.as_slice());
            if i < last {
                let w = widths[k][i];
                proof {
                    assert(own[i as int] == w as int);
                    lemma_column_width_at_least(ws, k as int, i as int);
                }
                push_spaces(&mut label, cols[i] - w);
                push_spaces(&mut label, 2);
                assert(spaces((cols@[i as int] - w) as int) + spaces(2) =~= spaces(
                    column_width(ws, i as int) - own[i as int] + 2,
                ));
            }
            i = i + 1;
            assert(label@ =~= label_prefix(row, own, ws, last as int, i as int));
        }
        let ghost before = out@;
        out.push((decimal_string(k), string_of(label.as_slice())));
        proof {
            assert forall|m: int| 0 <= m < k + 1 implies (#[trigger] choice_views(out@)[m])
                == labelled_choices(rows, ws)[m] by {
                if m < k {
                    assert(out@[m] == before[m]);
                    assert(choice_views(before)[m] == labelled_choices(rows, ws)[m]);
                }
            }
        }
        k = k + 1;
    }
    assert(choice_views(out@) =~= labelled_choices(rows, ws));
    out
}

/// Picker entries for rows of (marker, name, path, branch) as the user sees them (see
/// `display_row`), with every field as wide as `unicode-width` measures it.
pub fn aligned_choices_with_home(rows: Vec<[String; 4]>, homes: &Vec<String>) -> (r: Vec<
    (String, String),
>)
    ensures
        choice_views(r@) == labelled_choices(
            display_rows(rows@, texts(homes@)),
            field_widths(display_rows(rows@, texts(homes@))),
        ),
{
    let ghost hs = texts(homes@);
    let ghost target = display_rows(rows@, hs);
    let n = rows.len();
    let mut shown: Vec<[String; 4]> = Vec::new();
    let mut widths: Vec<[usize; 4]> = Vec::new();
    let mut k: usize = 0;
    while k < n
        invariant
            n == rows@.len() == target.len(),
            k <= n,
            hs == texts(homes@),
            target == display_rows(rows@, hs),
            shown@.len() == k,
            widths@.len() == k,
            forall|m: int| 0 <= m < k ==> #[trigger] rows_texts(shown@)[m] == target[m],
            forall|m: int| 0 <= m < k ==> #[trigger] widths_table(widths@)[m] == field_widths(target)[m],
        decreases n - k,
    {
        let row = &rows[k];
        assert(row_texts(*row) =~= row@.map_values(|s: String| s@));
        let f0 = string_of(escape_controls_of(chars_of(row[0].as_str()).as_slice()).as_slice());
        let f1 = string_of(escape_controls_of(chars_of(row[1].as_str()).as_slice()).as_slice());
        let p = chars_of(row[2].as_str());
        let f2 = string_of(escape_controls_of(shorten_path(&p, homes).as_slice()).as_slice());
        let f3 = string_of(escape_controls_of(chars_of(row[3].as_str()).as_slice()).as_slice());
        let w0 = width(f0.as_str());
        let w1 = width(f1.as_str());
        let w2 = width(f2.as_str());
        let w3 = width(f3.as_str());
        let fields = [f0, f1, f2, f3];
        let ws = [w0, w1, w2, w3];
        proof {
            assert(target[k as int] == display_row(row_texts(rows@[k as int]), hs));
            assert(row_texts(rows@[k as int])[0] == row[0]@);
            assert(row_texts(rows@[k as int])[1] == row[1]@);
            assert(row_texts(rows@[k as int])[2] == row[2]@);
            assert(row_texts(rows@[k as int])[3] == row[3]@);
            assert(row_texts(fields) =~= target[k as int]);
            assert(Seq::new(4, |f: int| ws@[f] as int) =~= field_widths(target)[k as int]);
        }
        let ghost shown_before = shown@;
        let ghost widths_before = widths@;
        shown.push(fields);
        widths.push(ws);
        proof {
            assert forall|m: int| 0 <= m < k + 1 implies #[trigger] rows_texts(shown@)[m]
                == target[m] by {
                if m < k {
                    assert(shown@[m] == shown_before[m]);
                    assert(rows_texts(shown_before)[m] == target[m]);
                }
            }
            assert forall|m: int| 0 <= m < k + 1 implies #[trigger] widths_table(widths@)[m]
                == field_widths(target)[m] by {
                if m < k {
                    assert(widths@[m] == widths_before[m]);
                    assert(widths_table(widths_before)[m] == field_widths(target)[m]);
                    assert(widths_table(widths@)[m] =~= widths_table(widths_before)[m]);
                } else {
                    assert(widths_table(widths@)[m] =~= Seq::new(4, |f: int| ws@[f] as int));
                }
            }
        }
        k = k + 1;
    }
    assert(rows_texts(shown@) =~= target);
    assert(widths_table(widths@) =~= field_widths(target));
    align_rows(&shown, &widths)
}

/// Every field fits in its column.
pub proof fn lemma_column_width_at_least(ws: Seq<Seq<int>>, k: int, i: int)
    requires
        0 <= k < ws.len(),
    ensures
        column_width(ws, i) >= ws[k][i],
    decreases ws.len(),
{
    if k < ws.len() - 1 {
        lemma_column_width_at_least(ws.drop_last(), k, i);
    }
}

/// Where column `i` starts: the columns before it, each with its two spaces.
pub open spec fn column_start(ws: Seq<Seq<int>>, i: int) -> int
    decreases i,
{
    if i <= 0 {
        0
    } else {
        column_start(ws, i - 1) + column_width(ws, i - 1) + 2
    }
}

proof fn lemma_prefix_extends(
    row: Seq<Seq<char>>,
    own: Seq<int>,
    ws: Seq<Seq<int>>,
    last: int,
    j: int,
    n: int,
)
    requires
        0 <= j <= n,
    ensures
        label_prefix(row, own, ws, last, j).len() <= label_prefix(row, own, ws, last, n).len(),
        label_prefix(row, own, ws, last, n).subrange(
            0,
            label_prefix(row, own, ws, last, j).len() as int,
        ) == label_prefix(row, own, ws, last, j),
    decreases n - j,
{
    if j < n {
        lemma_prefix_extends(row, own, ws, last, j, n - 1);
        let pj = label_prefix(row, own, ws, last, j);
        let pn1 = label_prefix(row, own, ws, last, n - 1);
        assert(label_prefix(row, own, ws, last, n).subrange(0, pj.len() as int) =~= pn1.subrange(
            0,
            pj.len() as int,
        ));
    } else {
        let pj = label_prefix(row, own, ws, last, j);
        assert(pj.subrange(0, pj.len() as int) =~= pj);
    }
}

proof fn lemma_prefix_length(row: Seq<Seq<char>>, own: Seq<int>, ws: Seq<Seq<int>>, last: int, i: int)
    requires
        0 <= i <= last,
        last <= 3,
        forall|f: int| 0 <= f < 4 ==> #[trigger] own[f] == row[f].len(),
        forall|f: int| 0 <= f < 4 ==> column_width(ws, f) >= #[trigger] own[f],
    ensures
        label_prefix(row, own, ws, last, i).len() == column_start(ws, i),
    decreases i,
{
    if i > 0 {
        lemma_prefix_length(row, own, ws, last, i - 1);
        assert(own[i - 1] == row[i - 1].len());
        assert(column_width(ws, i - 1) >= own[i - 1]);
    }
}

/// Columns line up. Where every character is one column wide (each field is as wide as it is
/// long), field `i` of every label begins at `column_start(ws, i)`, whatever the other rows
/// hold, and each label ends with its last non-empty field, with no padding after it.
pub proof fn lemma_fields_line_up(shown: Seq<Seq<Seq<char>>>, ws: Seq<Seq<int>>, k: int, i: int)
    requires
        shown.len() == ws.len(),
        forall|m: int| 0 <= m < shown.len() ==> (#[trigger] shown[m]).len() == 4,
        forall|m: int, f: int|
            0 <= m < shown.len() && 0 <= f < 4 ==> #[trigger] ws[m][f] == shown[m][f].len(),
        0 <= k < shown.len(),
        0 <= i <= last_filled(shown[k]),
    ensures
        row_label(shown[k], ws[k], ws).subrange(
            column_start(ws, i),
            column_start(ws, i) + shown[k][i].len(),
        ) == shown[k][i],
        row_label(shown[k], ws[k], ws).len() == column_start(ws, last_filled(shown[k]))
            + shown[k][last_filled(shown[k])].len(),
{
    let row = shown[k];
    let own = ws[k];
    let last = last_filled(row);
    assert forall|f: int| 0 <= f < 4 implies #[trigger] own[f] == row[f].len() by {
        assert(ws[k][f] == shown[k][f].len());
    }
    assert forall|f: int| 0 <= f < 4 implies column_width(ws, f) >= #[trigger] own[f] by {
        lemma_column_width_at_least(ws, k, f);
    }
    let label = row_label(row, own, ws);
    lemma_prefix_length(row, own, ws, last, i);
    lemma_prefix_length(row, own, ws, last, last);
    let start = column_start(ws, i);
    let pi = label_prefix(row, own, ws, last, i);
    let pi1 = label_prefix(row, own, ws, last, i + 1);
    lemma_prefix_extends(row, own, ws, last, i + 1, last + 1);
    assert(pi1 == pi + padded(row, own, ws, i, last));
    assert(pi1.subrange(start, start + row[i].len()) =~= row[i]);
    assert(label.subrange(0, pi1.len() as int) == pi1);
    assert(label.subrange(start, start + row[i].len()) =~= pi1.subrange(
        start,
        start + row[i].len(),
    ));
    assert(padded(row, own, ws, last, last) =~= row[last]);
}

/// The home directories that paths are shortened by: the home directory when it is absolute,
/// and its canonical form (`canonical`, when it could be found) when that is another path.
/// Paths shown are text, so a directory whose path is not valid UTF-8 (given by its `bytes`)
/// never shortens one, and is left out.
pub open spec fn home_dirs(
    home: Option<Seq<char>>,
    home_bytes: Option<Seq<u8>>,
    canonical: Option<Seq<char>>,
    canonical_bytes: Option<Seq<u8>>,
) -> Seq<Seq<char>> {
    match home {
        Some(h) => if is_absolute(h) {
            (if home_bytes is None {
                seq![h]
            } else {
                seq![]
            }) + match canonical {
                Some(c) => if !path_eq(path_id(c, canonical_bytes), path_id(h, home_bytes))
                    && canonical_bytes is None {
                    seq![c]
                } else {
                    seq![]
                },
                None => seq![],
            }
        } else {
            seq![]
        },
        None => seq![],
    }
}

/// The home directories to shorten paths by (see `home_dirs`).
pub fn home_paths(
    home: Option<&str>,
    home_bytes: Option<Vec<u8>>,
    canonical: Option<&str>,
    canonical_bytes: Option<Vec<u8>>,
) -> (r: Vec<String>)
    ensures
        texts(r@) == home_dirs(
            opt_str_text(home),
            opt_bytes(home_bytes),
            opt_str_text(canonical),
            opt_bytes(canonical_bytes),
        ),
{
    let ghost want = home_dirs(
        opt_str_text(home),
        opt_bytes(home_bytes),
        opt_str_text(canonical),
        opt_bytes(canonical_bytes),
    );
    let mut r: Vec<String> = Vec::new();
    let h = match home {
        Some(h) => h,
        None => {
            assert(texts(r@) =~= want);
            return r;
        },
    };
    if !path_is_absolute(h) {
        assert(texts(r@) =~= want);
        return r;
    }
    if home_bytes.is_none() {
        r.push(String::from_str(h));
    }
    let ghost first = texts(r@);
    if let Some(c) = canonical {
        let cid = path_identity(c, &canonical_bytes);
        let hid = path_identity(h, &home_bytes);
        if !paths_equal(cid.as_str(), hid.as_str()) && canonical_bytes.is_none() {
            r.push(String::from_str(c));
            assert(texts(r@) =~= first.push(c@));
        }
    }
    assert(texts(r@) =~= want);
    r
}

/// What the picker reads: each entry as its id, a tab and its label, ended by NUL.
pub open spec fn picker_text(items: Seq<(Seq<char>, Seq<char>)>) -> Seq<char>
    decreases items.len(),
{
    if items.len() == 0 {
        seq![]
    } else {
        picker_text(items.drop_last()) + items.last().0 + seq!['\t'] + items.last().1 + seq![
            '\0',
        ]
    }
}

/// Texts of picker entries.
pub open spec fn choice_views(items: Seq<(String, String)>) -> Seq<(Seq<char>, Seq<char>)> {
    items.map_values(|c: (String, String)| (c.0@, c.1@))
}

/// The picker's input for `items`; nothing when there are none, for there is nothing to choose.
pub fn picker_input(items: &Vec<(String, String)>) -> (r: Option<String>)
    ensures
        match r {
            Some(t) => items@.len() > 0 && t@ == picker_text(choice_views(items@)),
            None => items@.len() == 0,
        },
{
    if items.len() == 0 {
        return None;
    }
    let ghost cv = choice_views(items@);
    let mut out: Vec<char> = Vec::new();
    let mut i: usize = 0;
    while i < items.len()
        invariant
            i <= items@.len(),
            cv == choice_views(items@),
            out@ == picker_text(cv.take(i as int)),
        decreases items@.len() - i,
    {
        push_str(&mut out, items[i].0.as_str());
        out.push('\t');
        push_str(&mut out, items[i].1.as_str());
        out.push('\0');
        assert(cv.take(i + 1).drop_last() =~= cv.take(i as int));
        assert(cv.take(i + 1).last() == (items@[i as int].0@, items@[i as int].1@));
        i = i + 1;
    }
    assert(cv.take(i as int) =~= cv);
    Some(string_of(out.as_slice()))
}

/// The picker's arguments: NUL-separated entries in and out, tab-separated fields of which only
/// the label is shown, the full height, and `prompt`.
pub open spec fn picker_arg_texts(prompt: Seq<char>) -> Seq<Seq<char>> {
    seq![
        "--read0"@,
        "--print0"@,
        "--delimiter"@,
        "\t"@,
        "--with-nth"@,
        "2.."@,
        "--height"@,
        "100%"@,
        "--prompt"@,
        prompt,
    ]
}

/// The picker's arguments (see `picker_arg_texts`).
pub fn picker_args(prompt: &str) -> (r: Vec<String>)
    ensures
        texts(r@) == picker_arg_texts(prompt@),
{
    let mut r: Vec<String> = Vec::new();
    r.push(String::from_str("--read0"));
    r.push(String::from_str("--print0"));
    r.push(String::from_str("--delimiter"));
    r.push(String::from_str("\t"));
    r.push(String::from_str("--with-nth"));
    r.push(String::from_str("2.."));
    r.push(String::from_str("--height"));
    r.push(String::from_str("100%"));
    r.push(String::from_str("--prompt"));
    r.push(String::from_str(prompt));
    assert(texts(r@) =~= picker_arg_texts(prompt@));
    r
}

/// Why the picker's answer could not be used.
#[derive(Debug)]
pub enum PickerError {
    /// It failed; what it printed on standard error.
    Failed(String),
    NonUtf8,
    /// Its answer is not one entry's id and label ended by NUL.
    Invalid,
    /// It answered with more than one entry.
    Multiple,
}

/// A picker failure as the contracts see it.
pub enum PickerErrorView {
    Failed(Seq<char>),
    NonUtf8,
    Invalid,
    Multiple,
}

impl View for PickerError {
    type V = PickerErrorView;

    open spec fn view(&self) -> PickerErrorView {
        match self {
            PickerError::Failed(m) => PickerErrorView::Failed(m@),
            PickerError::NonUtf8 => PickerErrorView::NonUtf8,
            PickerError::Invalid => PickerErrorView::Invalid,
            PickerError::Multiple => PickerErrorView::Multiple,
        }
    }
}

/// The message of a picker failure.
pub open spec fn picker_error_text(e: PickerErrorView) -> Seq<char> {
    match e {
        PickerErrorView::Failed(m) => "fzf failed: "@ + m,
        PickerErrorView::NonUtf8 => "fzf returned non-UTF-8 output"@,
        PickerErrorView::Invalid => "fzf returned an invalid selection"@,
        PickerErrorView::Multiple => "fzf returned multiple selections"@,
    }
}

impl PickerError {
    /// The message that explains the failure.
    pub fn message(&self) -> (r: String)
        ensures
            r@ == picker_error_text(self@),
    {
        match self {
            PickerError::Failed(m) => {
                let mut out = chars_of("fzf failed: ");
                push_str(&mut out, m.as_str());
                string_of(out.as_slice())
            },
            PickerError::NonUtf8 => String::from_str("fzf returned non-UTF-8 output"),
            PickerError::Invalid => String::from_str("fzf returned an invalid selection"),
            PickerError::Multiple => String::from_str("fzf returned multiple selections"),
        }
    }
}

/// The id in a picked entry's text: one record ended by NUL, its id before the first tab.
pub open spec fn picked_id(chosen: Seq<char>) -> Result<Seq<char>, PickerErrorView> {
    match strip_suffix(chosen, seq!['\0']) {
        None => Err(PickerErrorView::Invalid),
        Some(record) => if index_of(record, '\0') is Some {
            Err(PickerErrorView::Multiple)
        } else {
            match split_once(record, '\t') {
                None => Err(PickerErrorView::Invalid),
                Some((id, _)) => Ok(id),
            }
        },
    }
}

/// What the picker's exit tells: nothing chosen when it was cancelled (status 1 or 130); its
/// standard error, without trailing white space, when it failed otherwise; else the chosen
/// entry's id read from its output.
pub open spec fn picker_outcome(
    code: Option<i32>,
    success: bool,
    stderr: Seq<char>,
    stdout: Seq<u8>,
) -> Result<Option<Seq<char>>, PickerErrorView> {
    if code == Some(1i32) || code == Some(130i32) {
        Ok(None)
    } else if !success {
        Err(PickerErrorView::Failed(trim_end(stderr)))
    } else if !valid_utf8(stdout) {
        Err(PickerErrorView::NonUtf8)
    } else {
        match picked_id(decode_utf8(stdout)) {
            Ok(id) => Ok(Some(id)),
            Err(e) => Err(e),
        }
    }
}

/// Reads the picker's result from its exit code, whether it succeeded, its standard error (as
/// text) and its standard output (see `picker_outcome`).
pub fn picker_result(code: Option<i32>, success: bool, stderr: &str, stdout: Vec<u8>) -> (r: Result<
    Option<String>,
    PickerError,
>)
    ensures
        match (r, picker_outcome(code, success, stderr@, stdout@)) {
            (Ok(a), Ok(b)) => opt_text(a) == b,
            (Err(a), Err(b)) => a@ == b,
            _ => false,
        },
{
    if code == Some(1i32) || code == Some(130i32) {
        return Ok(None);
    }
    if !success {
        let e = trim_end_chars(chars_of(stderr).as_slice());
        return Err(PickerError::Failed(string_of(e.as_slice())));
    }
    let ghost bytes = stdout@;
    let text = match utf8_string(stdout) {
        Some(t) => t,
        None => return Err(PickerError::NonUtf8),
    };
    let cs = chars_of(text.as_str());
    let n = cs.len();
    assert(seq!['\0'].len() == 1);
    if n == 0 || cs[n - 1] != '\0' {
        if n > 0 {
            assert(cs@.skip(n - 1)[0] == cs@[n - 1]);
        }
        return Err(PickerError::Invalid);
    }
    let record = slice_chars(cs.as_slice(), 0, n - 1);
    assert(cs@.skip(n - 1) =~= seq!['\0']);
    assert(record@ =~= cs@.take(n - 1));
    assert(strip_suffix(cs@, seq!['\0']) == Some(record@));
    assert(record@.skip(0) =~= record@);
    if let Some(_) = find_char(record.as_slice(), '\0', 0) {
        return Err(PickerError::Multiple);
    }
    match find_char(record.as_slice(), '\t', 0) {
        None => Err(PickerError::Invalid),
        Some(j) => {
            let id = slice_chars(record.as_slice(), 0, j);
            assert(id@ =~= record@.take(j as int));
            Ok(Some(string_of(id.as_slice())))
        },
    }
}

/// Why a picked id names no entry.
#[derive(Debug)]
pub enum IndexError {
    /// It is not a number.
    NotANumber(IntError),
    /// It is no entry's position.
    Unknown,
}

/// The entry position that a picked id names, among `count` entries.
pub fn pick_index(id: &str, count: usize) -> (r: Result<usize, IndexError>)
    ensures
        match parse_unsigned(id@, usize::MAX as nat) {
            Err(e) => r matches Err(IndexError::NotANumber(f)) && f == e,
            Ok(n) => if n < count {
                r == Ok::<usize, IndexError>(n as usize)
            } else {
                r matches Err(IndexError::Unknown)
            },
        },
{
    match parse_usize(id) {
        Err(e) => Err(IndexError::NotANumber(e)),
        Ok(n) => if n < count {
            Ok(n)
        } else {
            Err(IndexError::Unknown)
        },
    }
}


/// The picker entries for rows of field texts (marker, name, path, branch): each entry's id is
/// its position, its label the row as shown (see `display_row`) aligned in columns by the
/// display width of its fields.
pub open spec fn picker_choices(rows: Seq<Seq<Seq<char>>>, homes: Seq<Seq<char>>) -> Seq<
    (Seq<char>, Seq<char>),
> {
    let shown = Seq::new(rows.len(), |k: int| display_row(rows[k], homes));
    labelled_choices(shown, field_widths(shown))
}

/// The field texts of rows.
pub open spec fn rows_texts(rows: Seq<[String; 4]>) -> Seq<Seq<Seq<char>>> {
    rows.map_values(|r: [String; 4]| row_texts(r))
}

/// Picker entries for rows (see `picker_choices`).
pub fn aligned_choices(rows: Vec<[String; 4]>, homes: &Vec<String>) -> (r: Vec<(String, String)>)
    ensures
        choice_views(r@) == picker_choices(rows_texts(rows@), texts(homes@)),
{
    let ghost rs = rows@;
    let r = aligned_choices_with_home(rows, homes);
    proof {
        let hs = texts(homes@);
        let shown = Seq::new(rs.len(), |k: int| display_row(rows_texts(rs)[k], hs));
        assert(shown =~= display_rows(rs, hs));
    }
    r
}


/// An entry the picker hands back as it was given reads as that entry's id: ids are kept apart
/// from labels, which may hold tabs and newlines but no NUL.
pub proof fn lemma_returned_entry_gives_its_id(id: Seq<char>, label: Seq<char>)
    requires
        !id.contains('\t'),
        !id.contains('\0'),
        !label.contains('\0'),
    ensures
        picked_id(id + seq!['\t'] + label + seq!['\0']) == Ok::<Seq<char>, PickerErrorView>(id),
{
    let record = id + seq!['\t'] + label;
    let chosen = record + seq!['\0'];
    assert(chosen.skip(chosen.len() - 1) =~= seq!['\0']);
    assert(chosen.take(chosen.len() - 1) =~= record);
    assert forall|k: int| 0 <= k < record.len() implies record[k] != '\0' by {
        if k < id.len() {
            assert(record[k] == id[k]);
            assert(id.contains(id[k]));
        } else if k > id.len() {
            assert(record[k] == label[k - id.len() - 1]);
            assert(label.contains(label[k - id.len() - 1]));
        }
    }
    crate::text::lemma_index_of_is(record, '\0', record.len() as int);
    assert forall|k: int| 0 <= k < id.len() implies record[k] != '\t' by {
        assert(record[k] == id[k]);
        assert(id.contains(id[k]));
    }
    crate::text::lemma_index_of_is(record, '\t', id.len() as int);
    assert(record.take(id.len() as int) =~= id);
}

} // verus!
