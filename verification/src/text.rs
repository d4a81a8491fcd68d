//! Tile names and console text as character vectors.
//!
//! Names are kept as `Vec<char>` so that contracts can speak directly about
//! their character sequences. A name is legal when it avoids the characters
//! the registry reserves: underscore and square brackets.
use vstd::prelude::*;

verus! {

/// Characters the registry forbids inside a tile name.
pub open spec fn legal_char(c: char) -> bool {
    c != '_' && c != '[' && c != ']'
}

/// A legal tile name: every character is allowed.
pub open spec fn legal_name(s: Seq<char>) -> bool {
    forall|i: int| 0 <= i < s.len() ==> legal_char(s[i])
}

/// Checks a name against the reserved characters.
pub fn name_is_legal(n: &Vec<char>) -> (r: bool)
    ensures
        r == legal_name(n@),
{
    let mut i: usize = 0;
    while i < n.len()
        invariant
            i <= n@.len(),
            forall|j: int| 0 <= j < i ==> legal_char(n@[j]),
        decreases n@.len() - i,
    {
        let c = n[i];
        if c == '_' || c == '[' || c == ']' {
            return false;
        }
        i = i + 1;
    }
    true
}

/// Character-sequence equality on name vectors.
pub fn chars_eq(a: &Vec<char>, b: &Vec<char>) -> (r: bool)
    ensures
        r == (a@ == b@),
{
    if a.len() != b.len() {
        return false;
    }
    let mut i: usize = 0;
    while i < a.len()
        invariant
            a@.len() == b@.len(),
            i <= a@.len(),
            forall|j: int| 0 <= j < i ==> a@[j] == b@[j],
        decreases a@.len() - i,
    {
        if a[i] != b[i] {
            return false;
        }
        i = i + 1;
    }
    proof {
        assert(a@ =~= b@);
    }
    true
}

/// Copies a name; the copy reads the same.
pub fn clone_name(v: &Vec<char>) -> (r: Vec<char>)
    ensures
        r@ == v@,
{
    let r = v.clone();
    proof {
        assert(r@ =~= v@);
    }
    r
}

/// Whitespace the confirmation prompt strips before reading an answer.
pub open spec fn is_ws(c: char) -> bool {
    c == ' ' || c == '\t' || c == '\r' || c == '\n'
}

/// The input with leading whitespace removed.
pub open spec fn ltrim(s: Seq<char>) -> Seq<char>
    decreases s.len(),
{
    if s.len() > 0 && is_ws(s[0]) {
        ltrim(s.drop_first())
    } else {
        s
    }
}

/// The input with trailing whitespace removed.
pub open spec fn rtrim(s: Seq<char>) -> Seq<char>
    decreases s.len(),
{
    if s.len() > 0 && is_ws(s[s.len() - 1]) {
        rtrim(s.drop_last())
    } else {
        s
    }
}

/// The input with whitespace removed on both ends.
pub open spec fn trimmed(s: Seq<char>) -> Seq<char> {
    rtrim(ltrim(s))
}

/// The word "continue", compared without regard to letter case.
pub open spec fn is_continue_word(t: Seq<char>) -> bool {
    t.len() == 8 && (t[0] == 'c' || t[0] == 'C') && (t[1] == 'o' || t[1] == 'O') && (t[2] == 'n'
        || t[2] == 'N') && (t[3] == 't' || t[3] == 'T') && (t[4] == 'i' || t[4] == 'I') && (t[5]
        == 'n' || t[5] == 'N') && (t[6] == 'u' || t[6] == 'U') && (t[7] == 'e' || t[7] == 'E')
}

/// The confirmation gate accepts an answer exactly when, stripped of
/// surrounding whitespace, it reads "continue" in any letter case.
pub open spec fn confirmation_spec(s: Seq<char>) -> bool {
    is_continue_word(trimmed(s))
}

/// The input with whitespace removed on both ends, as a fresh vector.
pub fn trim_chars(s: &Vec<char>) -> (r: Vec<char>)
    ensures
        r@ == trimmed(s@),
{
    proof {
        assert(s@.skip(0) =~= s@);
    }
    let mut start: usize = 0;
    while start < s.len() && (s[start] == ' ' || s[start] == '\t' || s[start] == '\r' || s[start]
        == '\n')
        invariant
            start <= s@.len(),
            ltrim(s@) == ltrim(s@.skip(start as int)),
        decreases s@.len() - start,
    {
        proof {
            assert(s@.skip(start as int).drop_first() =~= s@.skip(start as int + 1));
        }
        start = start + 1;
    }
    proof {
        assert(ltrim(s@.skip(start as int)) == s@.skip(start as int));
        assert(s@.skip(start as int) =~= s@.subrange(start as int, s@.len() as int));
    }
    let mut end: usize = s.len();
    while end > start && (s[end - 1] == ' ' || s[end - 1] == '\t' || s[end - 1] == '\r' || s[end
        - 1] == '\n')
        invariant
            start <= end <= s@.len(),
            ltrim(s@) == s@.skip(start as int),
            rtrim(ltrim(s@)) == rtrim(s@.subrange(start as int, end as int)),
        decreases end,
    {
        proof {
            assert(s@.subrange(start as int, end as int).drop_last() =~= s@.subrange(
                start as int,
                end as int - 1,
            ));
        }
        end = end - 1;
    }
    let ghost t = s@.subrange(start as int, end as int);
    proof {
        assert(rtrim(t) == t);
        assert(trimmed(s@) == t);
    }
    let mut r: Vec<char> = Vec::new();
    let mut i: usize = start;
    while i < end
        invariant
            start <= i <= end <= s@.len(),
            r@ == s@.subrange(start as int, i as int),
        decreases end - i,
    {
        r.push(s[i]);
        proof {
            assert(s@.subrange(start as int, i as int).push(s@[i as int]) =~= s@.subrange(
                start as int,
                i as int + 1,
            ));
        }
        i = i + 1;
    }
    r
}

/// Decides whether a console answer acknowledges the confirmation gate.
pub fn confirmation_accepted(s: &Vec<char>) -> (r: bool)
    ensures
        r == confirmation_spec(s@),
{
    proof {
        assert(s@.skip(0) =~= s@);
    }
    let mut start: usize = 0;
    while start < s.len() && (s[start] == ' ' || s[start] == '\t' || s[start] == '\r' || s[start]
        == '\n')
        invariant
            start <= s@.len(),
            ltrim(s@) == ltrim(s@.skip(start as int)),
        decreases s@.len() - start,
    {
        proof {
            assert(s@.skip(start as int).drop_first() =~= s@.skip(start as int + 1));
        }
        start = start + 1;
    }
    proof {
        assert(ltrim(s@.skip(start as int)) == s@.skip(start as int));
        assert(s@.skip(start as int) =~= s@.subrange(start as int, s@.len() as int));
    }
    let mut end: usize = s.len();
    while end > start && (s[end - 1] == ' ' || s[end - 1] == '\t' || s[end - 1] == '\r' || s[end
        - 1] == '\n')
        invariant
            start <= end <= s@.len(),
            ltrim(s@) == s@.skip(start as int),
            rtrim(ltrim(s@)) == rtrim(s@.subrange(start as int, end as int)),
        decreases end,
    {
        proof {
            assert(s@.subrange(start as int, end as int).drop_last() =~= s@.subrange(
                start as int,
                end as int - 1,
            ));
        }
        end = end - 1;
    }
    let ghost t = s@.subrange(start as int, end as int);
    proof {
        assert(rtrim(t) == t);
        assert(trimmed(s@) == t);
    }
    if end - start != 8 {
        return false;
    }
    let r = (s[start] == 'c' || s[start] == 'C') && (s[start + 1] == 'o' || s[start + 1] == 'O')
        && (s[start + 2] == 'n' || s[start + 2] == 'N') && (s[start + 3] == 't' || s[start + 3]
        == 'T') && (s[start + 4] == 'i' || s[start + 4] == 'I') && (s[start + 5] == 'n' || s[start
        + 5] == 'N') && (s[start + 6] == 'u' || s[start + 6] == 'U') && (s[start + 7] == 'e'
        || s[start + 7] == 'E');
    r
}

} // verus!
