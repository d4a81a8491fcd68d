//! Parsing of the two texts the run reads: the renames file (`old=new`
//! lines) and the console list of sheet sizes (comma-separated numbers).
//!
//! A renames line splits at its last `=`; a line without `=` is invalid and
//! reported, not applied. A later line for the same stem wins, which the
//! lookup order realises: parsed pairs are kept newest first and the first
//! match is taken.
use vstd::prelude::*;

use crate::text::trimmed;

verus! {

/// Index of the first line break, or the text's length.
pub open spec fn first_nl(s: Seq<char>) -> int
    decreases s.len(),
{
    if s.len() == 0 {
        0
    } else if s[0] == '\n' {
        0
    } else {
        1 + first_nl(s.drop_first())
    }
}

/// Where the first line break sits: inside the text on a `'\n'`, with none
/// before it, or at the end.
pub proof fn lemma_first_nl(s: Seq<char>)
    ensures
        0 <= first_nl(s) <= s.len(),
        first_nl(s) < s.len() ==> s[first_nl(s)] == '\n',
        forall|j: int| 0 <= j < first_nl(s) ==> s[j] != '\n',
    decreases s.len(),
{
    if s.len() > 0 && s[0] != '\n' {
        lemma_first_nl(s.drop_first());
        assert forall|j: int| 0 <= j < first_nl(s) implies s[j] != '\n' by {
            if j > 0 {
                assert(s.drop_first()[j - 1] != '\n');
            }
        }
    }
}

/// A line with a trailing carriage return (from `\r\n` breaks) stripped.
pub open spec fn strip_cr(l: Seq<char>) -> Seq<char> {
    if l.len() > 0 && l.last() == '\r' {
        l.drop_last()
    } else {
        l
    }
}

/// The text split at line breaks, one entry per line, carriage returns
/// stripped; a trailing line break ends the last line rather than opening an
/// empty one.
pub open spec fn text_lines(s: Seq<char>) -> Seq<Seq<char>>
    decreases s.len(),
    via text_lines_dec
{
    if s.len() == 0 {
        Seq::empty()
    } else {
        let k = first_nl(s);
        if k == s.len() {
            seq![strip_cr(s)]
        } else {
            seq![strip_cr(s.take(k))] + text_lines(s.skip(k + 1))
        }
    }
}

#[via_fn]
proof fn text_lines_dec(s: Seq<char>) {
    lemma_first_nl(s);
}

/// Index of the last `=` of a line, or `-1`.
pub open spec fn last_eq(l: Seq<char>) -> int
    decreases l.len(),
{
    if l.len() == 0 {
        -1
    } else if l.last() == '=' {
        l.len() - 1
    } else {
        last_eq(l.drop_last())
    }
}

/// Where the last `=` sits: on an `=` with none after it, or nowhere.
pub proof fn lemma_last_eq(l: Seq<char>)
    ensures
        -1 <= last_eq(l) < l.len(),
        last_eq(l) >= 0 ==> l[last_eq(l)] == '=',
        forall|j: int| last_eq(l) < j < l.len() ==> l[j] != '=',
    decreases l.len(),
{
    if l.len() > 0 && l.last() != '=' {
        lemma_last_eq(l.drop_last());
        assert forall|j: int| last_eq(l) < j < l.len() implies l[j] != '=' by {
            if j < l.len() - 1 {
                assert(l.drop_last()[j] != '=');
            }
        }
    }
}

/// What one renames line means: the stem before its last `=` maps to the
/// name after it; a line without `=` is invalid.
pub open spec fn parse_line_spec(l: Seq<char>) -> Option<(Seq<char>, Seq<char>)> {
    let k = last_eq(l);
    if k < 0 {
        None
    } else {
        Some((l.take(k), l.skip(k + 1)))
    }
}

/// The rename pairs of the lines from index `j` on, the later lines first,
/// so that a first-match lookup lets the latest entry for a stem win.
pub open spec fn renames_suffix(lines: Seq<Seq<char>>, j: int) -> Seq<(Seq<char>, Seq<char>)>
    decreases lines.len() - j,
{
    if j < 0 || j >= lines.len() {
        Seq::empty()
    } else {
        match parse_line_spec(lines[j]) {
            Some(p) => renames_suffix(lines, j + 1).push(p),
            None => renames_suffix(lines, j + 1),
        }
    }
}

/// The renames table a text defines.
pub open spec fn renames_spec(s: Seq<char>) -> Seq<(Seq<char>, Seq<char>)> {
    renames_suffix(text_lines(s), 0)
}

/// The invalid lines of a renames text, in order.
pub open spec fn invalid_lines_spec(lines: Seq<Seq<char>>) -> Seq<Seq<char>> {
    lines.filter(|l: Seq<char>| last_eq(l) < 0)
}

/// Splits a text into its lines.
pub fn split_text_lines(s: &Vec<char>) -> (r: Vec<Vec<char>>)
    ensures
        crate::manager::names_view(r@) == text_lines(s@),
{
    let mut r: Vec<Vec<char>> = Vec::new();
    let mut pos: usize = 0;
    proof {
        assert(s@.skip(0) =~= s@);
    }
    while pos < s.len()
        invariant
            pos <= s@.len(),
            crate::manager::names_view(r@) + text_lines(s@.skip(pos as int)) =~= text_lines(s@),
        decreases s@.len() - pos,
    {
        let ghost rem = s@.skip(pos as int);
        let mut k: usize = pos;
        while k < s.len() && s[k] != '\n'
            invariant
                pos <= k <= s@.len(),
                rem == s@.skip(pos as int),
                forall|j: int| pos <= j < k ==> s@[j] != '\n',
            decreases s@.len() - k,
        {
            k = k + 1;
        }
        proof {
            lemma_first_nl_chars(rem, k - pos);
        }
        let mut line: Vec<char> = Vec::new();
        let endx: usize = if k > pos && s[k - 1] == '\r' {
            k - 1
        } else {
            k
        };
        let mut i: usize = pos;
        while i < endx
            invariant
                pos <= i <= endx <= s@.len(),
                line@ == s@.subrange(pos as int, i as int),
            decreases endx - i,
        {
            line.push(s[i]);
            proof {
                assert(s@.subrange(pos as int, i as int).push(s@[i as int]) =~= s@.subrange(
                    pos as int,
                    i as int + 1,
                ));
            }
            i = i + 1;
        }
        let ghost rv = crate::manager::names_view(r@);
        r.push(line);
        proof {
            let kk = (k - pos) as int;
            if k == s.len() {
                assert(rem.take(rem.len() as int) =~= rem);
                assert(line@ =~= strip_cr(rem));
                assert(text_lines(rem) =~= seq![strip_cr(rem)]);
                assert(crate::manager::names_view(r@) =~= rv.push(strip_cr(rem)));
                assert(s@.skip(s@.len() as int).len() == 0);
                assert(crate::manager::names_view(r@) + text_lines(s@.skip(s@.len() as int)) =~= text_lines(s@));
            } else {
                assert(rem.take(kk) =~= s@.subrange(pos as int, k as int));
                assert(line@ =~= strip_cr(rem.take(kk)));
                assert(rem.skip(kk + 1) =~= s@.skip(k as int + 1));
                assert(text_lines(rem) =~= seq![strip_cr(rem.take(kk))] + text_lines(
                    rem.skip(kk + 1),
                ));
                assert(crate::manager::names_view(r@) =~= rv.push(strip_cr(rem.take(kk))));
                assert(crate::manager::names_view(r@) + text_lines(s@.skip(k as int + 1)) =~= text_lines(s@));
            }
        }
        pos = if k < s.len() {
            k + 1
        } else {
            k
        };
    }
    proof {
        assert(text_lines(s@.skip(pos as int)).len() == 0);
        assert(crate::manager::names_view(r@) =~= text_lines(s@));
    }
    r
}

/// A scan that stops at index `k` on `'\n'` (or at the end) finds the first
/// line break.
proof fn lemma_first_nl_chars(rem: Seq<char>, k: int)
    requires
        0 <= k <= rem.len(),
        forall|j: int| 0 <= j < k ==> rem[j] != '\n',
        k < rem.len() ==> rem[k] == '\n',
    ensures
        first_nl(rem) == k,
    decreases rem.len(),
{
    if rem.len() > 0 && rem[0] != '\n' {
        lemma_first_nl_chars(rem.drop_first(), k - 1);
    }
}

/// Parses one renames line at its last `=`.
pub fn parse_line(l: &Vec<char>) -> (r: Option<(Vec<char>, Vec<char>)>)
    ensures
        match r {
            Some(p) => parse_line_spec(l@) == Some((p.0@, p.1@)),
            None => parse_line_spec(l@) is None,
        },
{
    proof {
        lemma_last_eq(l@);
    }
    let mut k: usize = l.len();
    while k > 0 && l[k - 1] != '='
        invariant
            k <= l@.len(),
            forall|j: int| k <= j < l@.len() ==> l@[j] != '=',
        decreases k,
    {
        k = k - 1;
    }
    if k == 0 {
        proof {
            if last_eq(l@) >= 0 {
                assert(l@[last_eq(l@)] == '=');
            }
        }
        return None;
    }
    proof {
        lemma_last_eq_chars(l@, k - 1);
    }
    let mut stem: Vec<char> = Vec::new();
    let mut i: usize = 0;
    while i < k - 1
        invariant
            i <= k - 1 <= l@.len(),
            stem@ == l@.take(i as int),
        decreases k - i,
    {
        stem.push(l[i]);
        proof {
            assert(l@.take(i as int).push(l@[i as int]) =~= l@.take(i as int + 1));
        }
        i = i + 1;
    }
    let mut value: Vec<char> = Vec::new();
    let mut j: usize = k;
    while j < l.len()
        invariant
            k <= j <= l@.len(),
            value@ == l@.subrange(k as int, j as int),
        decreases l@.len() - j,
    {
        value.push(l[j]);
        proof {
            assert(l@.subrange(k as int, j as int).push(l@[j as int]) =~= l@.subrange(
                k as int,
                j as int + 1,
            ));
        }
        j = j + 1;
    }
    proof {
        assert(stem@ =~= l@.take(k - 1));
        assert(value@ =~= l@.skip(k as int));
    }
    Some((stem, value))
}

/// A backwards scan that stops at `k` on `=`, with none after, finds the
/// last `=`.
proof fn lemma_last_eq_chars(l: Seq<char>, k: int)
    requires
        0 <= k < l.len(),
        l[k] == '=',
        forall|j: int| k < j < l.len() ==> l[j] != '=',
    ensures
        last_eq(l) == k,
    decreases l.len(),
{
    if l.last() != '=' {
        lemma_last_eq_chars(l.drop_last(), k);
    }
}

/// Parses a renames text: the resulting pairs, newest first, and the invalid
/// lines for reporting.
pub fn parse_renames(s: &Vec<char>) -> (r: (Vec<(Vec<char>, Vec<char>)>, Vec<Vec<char>>))
    ensures
        crate::manager::renames_view(r.0@) == renames_spec(s@),
        crate::manager::names_view(r.1@) == invalid_lines_spec(text_lines(s@)),
{
    let lines = split_text_lines(s);
    let ghost lv = crate::manager::names_view(lines@);
    let mut pairs: Vec<(Vec<char>, Vec<char>)> = Vec::new();
    let mut invalid: Vec<Vec<char>> = Vec::new();
    let mut j: usize = lines.len();
    while j > 0
        invariant
            j <= lines@.len(),
            lv == crate::manager::names_view(lines@),
            crate::manager::renames_view(pairs@) == renames_suffix(lv, j as int),
            invalid@.len() == 0,
        decreases j,
    {
        j = j - 1;
        let ghost pv = crate::manager::renames_view(pairs@);
        let ghost iv = crate::manager::names_view(invalid@);
        proof {
            assert(lv.take(j + 1).drop_last() =~= lv.take(j as int));
            assert(lv.take(j + 1).last() == lv[j as int]);
        }
        match parse_line(&lines[j]) {
            Some(p) => {
                pairs.push(p);
                proof {
                    assert(crate::manager::renames_view(pairs@) =~= pv.push(
                        (pairs@.last().0@, pairs@.last().1@),
                    ));
                }
            },
            None => {},
        }
    }
    proof {
        reveal_with_fuel(Seq::<_>::filter, 2);
        assert(lv.take(0) =~= Seq::<Seq<char>>::empty());
        assert(invalid_lines_spec(lv.take(0)) =~= Seq::<Seq<char>>::empty());
        assert(crate::manager::names_view(invalid@) =~= Seq::<Seq<char>>::empty());
    }
    let mut i: usize = 0;
    while i < lines.len()
        invariant
            i <= lines@.len(),
            lv == crate::manager::names_view(lines@),
            crate::manager::names_view(invalid@) == invalid_lines_spec(lv.take(i as int)),
        decreases lines@.len() - i,
    {
        let ghost iv = crate::manager::names_view(invalid@);
        proof {
            reveal_with_fuel(Seq::<_>::filter, 2);
            lemma_last_eq(lv[i as int]);
            assert(lv.take(i + 1).drop_last() =~= lv.take(i as int));
            assert(lv.take(i + 1).last() == lv[i as int]);
        }
        if parse_line(&lines[i]).is_none() {
            invalid.push(crate::text::clone_name(&lines[i]));
            proof {
                assert(crate::manager::names_view(invalid@) =~= iv.push(lv[i as int]));
            }
        }
        i = i + 1;
    }
    proof {
        assert(lv.take(lines@.len() as int) =~= lv);
    }
    (pairs, invalid)
}

/// Index of the first comma, or the text's length.
pub open spec fn first_comma(s: Seq<char>) -> int
    decreases s.len(),
{
    if s.len() == 0 {
        0
    } else if s[0] == ',' {
        0
    } else {
        1 + first_comma(s.drop_first())
    }
}

/// Where the first comma sits.
pub proof fn lemma_first_comma(s: Seq<char>)
    ensures
        0 <= first_comma(s) <= s.len(),
        first_comma(s) < s.len() ==> s[first_comma(s)] == ',',
        forall|j: int| 0 <= j < first_comma(s) ==> s[j] != ',',
    decreases s.len(),
{
    if s.len() > 0 && s[0] != ',' {
        lemma_first_comma(s.drop_first());
        assert forall|j: int| 0 <= j < first_comma(s) implies s[j] != ',' by {
            if j > 0 {
                assert(s.drop_first()[j - 1] != ',');
            }
        }
    }
}

/// The comma-separated fields of a text; always at least one field, and an
/// empty text is one empty field.
pub open spec fn comma_fields(s: Seq<char>) -> Seq<Seq<char>>
    decreases s.len(),
    via comma_fields_dec
{
    let k = first_comma(s);
    if k == s.len() {
        seq![s]
    } else {
        seq![s.take(k)] + comma_fields(s.skip(k + 1))
    }
}

#[via_fn]
proof fn comma_fields_dec(s: Seq<char>) {
    lemma_first_comma(s);
}

/// Splits a text at commas.
pub fn split_comma_fields(s: &Vec<char>) -> (r: Vec<Vec<char>>)
    ensures
        crate::manager::names_view(r@) == comma_fields(s@),
{
    let mut r: Vec<Vec<char>> = Vec::new();
    let mut pos: usize = 0;
    proof {
        assert(s@.skip(0) =~= s@);
    }
    loop
        invariant_except_break
            pos <= s@.len(),
            crate::manager::names_view(r@) + comma_fields(s@.skip(pos as int)) =~= comma_fields(
                s@,
            ),
        ensures
            crate::manager::names_view(r@) =~= comma_fields(s@),
        decreases s@.len() - pos,
    {
        let ghost rem = s@.skip(pos as int);
        let mut k: usize = pos;
        while k < s.len() && s[k] != ','
            invariant
                pos <= k <= s@.len(),
                rem == s@.skip(pos as int),
                forall|j: int| pos <= j < k ==> s@[j] != ',',
            decreases s@.len() - k,
        {
            k = k + 1;
        }
        proof {
            lemma_first_comma_chars(rem, k - pos);
        }
        let mut field: Vec<char> = Vec::new();
        let mut i: usize = pos;
        while i < k
            invariant
                pos <= i <= k <= s@.len(),
                field@ == s@.subrange(pos as int, i as int),
            decreases k - i,
        {
            field.push(s[i]);
            proof {
                assert(s@.subrange(pos as int, i as int).push(s@[i as int]) =~= s@.subrange(
                    pos as int,
                    i as int + 1,
                ));
            }
            i = i + 1;
        }
        let ghost rv = crate::manager::names_view(r@);
        r.push(field);
        proof {
            let kk = (k - pos) as int;
            assert(rem.take(kk) =~= s@.subrange(pos as int, k as int));
            if k == s.len() {
                assert(rem.take(rem.len() as int) =~= rem);
                assert(comma_fields(rem) =~= seq![rem]);
                assert(crate::manager::names_view(r@) =~= rv.push(rem));
            } else {
                assert(rem.skip(kk + 1) =~= s@.skip(k as int + 1));
                assert(comma_fields(rem) =~= seq![rem.take(kk)] + comma_fields(rem.skip(kk + 1)));
                assert(crate::manager::names_view(r@) =~= rv.push(rem.take(kk)));
                assert(crate::manager::names_view(r@) + comma_fields(s@.skip(k as int + 1)) =~= comma_fields(s@));
            }
        }
        if k == s.len() {
            break ;
        }
        pos = k + 1;
    }
    r
}

/// A scan that stops at index `k` on a comma (or at the end) finds the first
/// comma.
proof fn lemma_first_comma_chars(rem: Seq<char>, k: int)
    requires
        0 <= k <= rem.len(),
        forall|j: int| 0 <= j < k ==> rem[j] != ',',
        k < rem.len() ==> rem[k] == ',',
    ensures
        first_comma(rem) == k,
    decreases rem.len(),
{
    if rem.len() > 0 && rem[0] != ',' {
        lemma_first_comma_chars(rem.drop_first(), k - 1);
    }
}

/// The numeric value of one decimal digit character, `-1` for any other
/// character.
pub open spec fn digit_val(c: char) -> int {
    if c == '0' {
        0
    } else if c == '1' {
        1
    } else if c == '2' {
        2
    } else if c == '3' {
        3
    } else if c == '4' {
        4
    } else if c == '5' {
        5
    } else if c == '6' {
        6
    } else if c == '7' {
        7
    } else if c == '8' {
        8
    } else if c == '9' {
        9
    } else {
        -1
    }
}

/// The value of a digit string read in base ten.
pub open spec fn digits_val(s: Seq<char>) -> int
    decreases s.len(),
{
    if s.len() == 0 {
        0
    } else {
        digits_val(s.drop_last()) * 10 + digit_val(s.last())
    }
}

/// A non-empty string of decimal digits.
pub open spec fn is_number(s: Seq<char>) -> bool {
    s.len() > 0 && forall|j: int| 0 <= j < s.len() ==> digit_val(s[j]) >= 0
}

/// The value of a longer digit prefix is no smaller.
proof fn lemma_digits_mono(s: Seq<char>, i: int, j: int)
    requires
        0 <= i <= j <= s.len(),
        digits_val(s.take(i)) >= 0,
        forall|k: int| i <= k < j ==> digit_val(s[k]) >= 0,
    ensures
        digits_val(s.take(j)) >= digits_val(s.take(i)),
    decreases j - i,
{
    if j > i {
        lemma_digits_mono(s, i, j - 1);
        assert(s.take(j).drop_last() =~= s.take(j - 1));
        let v = digits_val(s.take(j - 1));
        assert(v * 10 >= v) by (nonlinear_arith)
            requires
                v >= 0,
        ;
    }
}

/// Reads a decimal number. `None` exactly when the text is not a digit
/// string or its value does not fit `u32`.
pub fn parse_u32(s: &Vec<char>) -> (r: Option<u32>)
    ensures
        match r {
            Some(v) => is_number(s@) && v as int == digits_val(s@),
            None => !(is_number(s@) && digits_val(s@) <= u32::MAX as int),
        },
{
    if s.len() == 0 {
        return None;
    }
    let mut acc: u64 = 0;
    let mut i: usize = 0;
    proof {
        assert(s@.take(0) =~= Seq::<char>::empty());
    }
    while i < s.len()
        invariant
            i <= s@.len(),
            acc <= u32::MAX as u64,
            acc as int == digits_val(s@.take(i as int)),
            forall|j: int| 0 <= j < i ==> digit_val(s@[j]) >= 0,
        decreases s@.len() - i,
    {
        let c = s[i];
        let d: u64 = if c == '0' {
            0
        } else if c == '1' {
            1
        } else if c == '2' {
            2
        } else if c == '3' {
            3
        } else if c == '4' {
            4
        } else if c == '5' {
            5
        } else if c == '6' {
            6
        } else if c == '7' {
            7
        } else if c == '8' {
            8
        } else if c == '9' {
            9
        } else {
            10
        };
        if d == 10 {
            proof {
                assert(digit_val(s@[i as int]) < 0);
            }
            return None;
        }
        proof {
            assert(d as int == digit_val(s@[i as int]));
            assert(s@.take(i + 1).drop_last() =~= s@.take(i as int));
            assert(s@.take(i + 1).last() == s@[i as int]);
        }
        acc = acc * 10 + d;
        proof {
            assert(acc as int == digits_val(s@.take(i + 1)));
        }
        if acc > u32::MAX as u64 {
            proof {
                if is_number(s@) {
                    lemma_digits_mono(s@, i + 1, s@.len() as int);
                    assert(s@.take(s@.len() as int) =~= s@);
                    assert(digits_val(s@) > u32::MAX as int);
                }
            }
            return None;
        }
        i = i + 1;
    }
    proof {
        assert(s@.take(s@.len() as int) =~= s@);
    }
    Some(acc as u32)
}

/// Whether a size field is usable: trimmed, it is a decimal number that
/// fits `u32`.
pub open spec fn field_ok(f: Seq<char>) -> bool {
    is_number(trimmed(f)) && digits_val(trimmed(f)) <= u32::MAX as int
}

/// Reads a comma-separated list of sheet sizes, each trimmed of surrounding
/// whitespace. `None` exactly when some field is not a number fitting `u32`.
pub fn parse_sizes(s: &Vec<char>) -> (r: Option<Vec<u32>>)
    ensures
        match r {
            Some(v) => {
                &&& v@.len() == comma_fields(s@).len()
                &&& forall|k: int|
                    0 <= k < v@.len() ==> field_ok(#[trigger] comma_fields(s@)[k]) && v@[k] as int
                        == digits_val(trimmed(comma_fields(s@)[k]))
            },
            None => exists|k: int|
                0 <= k < comma_fields(s@).len() && !field_ok(#[trigger] comma_fields(s@)[k]),
        },
{
    let fields = split_comma_fields(s);
    let ghost fv = comma_fields(s@);
    let mut r: Vec<u32> = Vec::new();
    let mut k: usize = 0;
    while k < fields.len()
        invariant
            k <= fields@.len(),
            fv == crate::manager::names_view(fields@),
            fv == comma_fields(s@),
            r@.len() == k,
            forall|j: int|
                0 <= j < k ==> field_ok(#[trigger] fv[j]) && r@[j] as int == digits_val(
                    trimmed(fv[j]),
                ),
        decreases fields@.len() - k,
    {
        let t = crate::text::trim_chars(&fields[k]);
        proof {
            assert(fv[k as int] == fields@[k as int]@);
            assert(t@ == trimmed(fv[k as int]));
        }
        match parse_u32(&t) {
            Some(v) => {
                r.push(v);
            },
            None => {
                proof {
                    assert(!field_ok(fv[k as int]));
                    assert(!field_ok(comma_fields(s@)[k as int]));
                }
                return None;
            },
        }
        k = k + 1;
    }
    Some(r)
}

} // verus!
