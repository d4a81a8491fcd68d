//! Text the registry interface receives: decimal numbers, one line per tile
//! or per deletion, and lines joined into fixed-size calls.
//!
//! The registry accepts a bounded batch per call, so lines are grouped into
//! chunks of `CHUNK` and each chunk is joined with `|`.
use vstd::prelude::*;

use crate::manager::{has_name, names_view, wf_table, Manager, Row};
use crate::pos::TilePos;

verus! {

/// Most lines one registry call may carry.
pub const CHUNK: usize = 50;

/// The character for one decimal digit.
pub open spec fn digit_char(d: int) -> char {
    if d == 0 {
        '0'
    } else if d == 1 {
        '1'
    } else if d == 2 {
        '2'
    } else if d == 3 {
        '3'
    } else if d == 4 {
        '4'
    } else if d == 5 {
        '5'
    } else if d == 6 {
        '6'
    } else if d == 7 {
        '7'
    } else if d == 8 {
        '8'
    } else {
        '9'
    }
}

/// The usual decimal rendering of a number, most significant digit first.
pub open spec fn dec_rep(n: int) -> Seq<char>
    decreases n,
{
    if n < 10 {
        seq![digit_char(n)]
    } else {
        dec_rep(n / 10).push(digit_char(n % 10))
    }
}

/// Appends the decimal rendering of `v`.
pub fn push_dec(out: &mut Vec<char>, v: u64)
    ensures
        final(out)@ == old(out)@ + dec_rep(v as int),
    decreases v,
{
    if v < 10 {
        out.push(digit((v % 10) as u8));
        proof {
            assert(final(out)@ =~= old(out)@ + dec_rep(v as int));
        }
    } else {
        push_dec(out, v / 10);
        out.push(digit((v % 10) as u8));
        proof {
            assert(final(out)@ =~= old(out)@ + dec_rep(v as int));
        }
    }
}

/// One decimal digit as a character.
fn digit(d: u8) -> (c: char)
    requires
        d < 10,
    ensures
        c == digit_char(d as int),
{
    if d == 0 {
        '0'
    } else if d == 1 {
        '1'
    } else if d == 2 {
        '2'
    } else if d == 3 {
        '3'
    } else if d == 4 {
        '4'
    } else if d == 5 {
        '5'
    } else if d == 6 {
        '6'
    } else if d == 7 {
        '7'
    } else if d == 8 {
        '8'
    } else {
        '9'
    }
}

/// The registry line for one added tile: its coordinates and its name,
/// separated by single spaces.
pub open spec fn tile_line_spec(p: TilePos, name: Seq<char>) -> Seq<char> {
    dec_rep(p.x as int) + seq![' '] + dec_rep(p.y as int) + seq![' '] + dec_rep(p.z as int)
        + seq![' '] + name
}

/// Renders the registry line for one added tile.
pub fn tile_line(p: TilePos, name: &Vec<char>) -> (r: Vec<char>)
    ensures
        r@ == tile_line_spec(p, name@),
{
    let mut out: Vec<char> = Vec::new();
    push_dec(&mut out, p.x as u64);
    out.push(' ');
    push_dec(&mut out, p.y as u64);
    out.push(' ');
    push_dec(&mut out, p.z as u64);
    out.push(' ');
    let mut i: usize = 0;
    let ghost head = out@;
    while i < name.len()
        invariant
            i <= name@.len(),
            out@ == head + name@.take(i as int),
        decreases name@.len() - i,
    {
        out.push(name[i]);
        proof {
            assert(head + name@.take(i as int) + seq![name@[i as int]] =~= head + name@.take(
                i as int + 1,
            ));
        }
        i = i + 1;
    }
    proof {
        assert(head + name@.take(name@.len() as int) =~= tile_line_spec(p, name@));
    }
    out
}

/// The stored file name of one sheet layer: the word "Tilesheet", the
/// family name, the cell size and the layer index, space-separated, with the
/// image extension.
pub open spec fn sheet_image_name_spec(family: Seq<char>, size: int, z: int) -> Seq<char> {
    seq!['T', 'i', 'l', 'e', 's', 'h', 'e', 'e', 't', ' '] + family + seq![' '] + dec_rep(size)
        + seq![' '] + dec_rep(z) + seq!['.', 'p', 'n', 'g']
}

/// Renders the stored file name of one sheet layer.
pub fn sheet_image_name(family: &Vec<char>, size: u32, z: u32) -> (r: Vec<char>)
    ensures
        r@ == sheet_image_name_spec(family@, size as int, z as int),
{
    let mut out: Vec<char> = Vec::new();
    out.push('T');
    out.push('i');
    out.push('l');
    out.push('e');
    out.push('s');
    out.push('h');
    out.push('e');
    out.push('e');
    out.push('t');
    out.push(' ');
    let ghost head = out@;
    let mut i: usize = 0;
    while i < family.len()
        invariant
            i <= family@.len(),
            out@ == head + family@.take(i as int),
        decreases family@.len() - i,
    {
        out.push(family[i]);
        proof {
            assert(head + family@.take(i as int) + seq![family@[i as int]] =~= head
                + family@.take(i as int + 1));
        }
        i = i + 1;
    }
    proof {
        assert(family@.take(family@.len() as int) =~= family@);
    }
    out.push(' ');
    push_dec(&mut out, size as u64);
    out.push(' ');
    push_dec(&mut out, z as u64);
    out.push('.');
    out.push('p');
    out.push('n');
    out.push('g');
    proof {
        assert(out@ =~= sheet_image_name_spec(family@, size as int, z as int));
    }
    out
}

/// Lines `from..to` joined with `|`.
pub open spec fn join_lines(lines: Seq<Seq<char>>, from: int, to: int) -> Seq<char>
    decreases to - from,
{
    if to <= from {
        Seq::empty()
    } else if to == from + 1 {
        lines[from]
    } else {
        join_lines(lines, from, to - 1) + seq!['|'] + lines[to - 1]
    }
}

/// How many registry calls a number of lines needs: one per started chunk.
pub open spec fn call_count(n: int) -> int {
    (n + CHUNK as int - 1) / CHUNK as int
}

/// The half-open line range the `i`-th registry call covers.
pub open spec fn call_range(n: int, i: int) -> (int, int) {
    (
        CHUNK as int * i,
        if CHUNK as int * (i + 1) < n {
            CHUNK as int * (i + 1)
        } else {
            n
        },
    )
}

/// Law: chunking covers the lines exactly, in order, in full chunks with one
/// smaller final chunk. With `n` lines there are exactly `ceil(n / CHUNK)`
/// calls; call `i` covers the lines from `CHUNK * i` on; every call but the
/// last carries exactly `CHUNK` lines, the last carries the remainder.
pub proof fn lemma_call_sizes(n: int, i: int)
    requires
        0 <= i < call_count(n),
    ensures
        call_range(n, i).0 == CHUNK as int * i,
        call_range(n, i).1 - call_range(n, i).0 <= CHUNK as int,
        i < call_count(n) - 1 ==> call_range(n, i).1 - call_range(n, i).0 == CHUNK as int,
        i == call_count(n) - 1 ==> call_range(n, i).1 == n,
        call_range(n, i).1 <= n,
{
    let k = CHUNK as int;
    assert(k * (i + 1) == k * i + k) by (nonlinear_arith);
    if i < call_count(n) - 1 {
        assert(k * (i + 1) < n) by {
            assert(i + 1 <= (n + k - 1) / k - 1);
            assert(k * ((n + k - 1) / k - 1) <= n - 1) by (nonlinear_arith)
                requires
                    k == 50,
            ;
            assert(k * (i + 1) <= k * ((n + k - 1) / k - 1)) by (nonlinear_arith)
                requires
                    k > 0,
                    i + 1 <= (n + k - 1) / k - 1,
            ;
        }
    } else {
        assert(k * i < n && n <= k * (i + 1)) by (nonlinear_arith)
            requires
                k == 50,
                i == (n + k - 1) / k - 1,
        ;
    }
}

/// Joins lines `from..to` with `|`.
fn join_range(lines: &Vec<Vec<char>>, from: usize, to: usize) -> (r: Vec<char>)
    requires
        from <= to <= lines@.len(),
    ensures
        r@ == join_lines(names_view(lines@), from as int, to as int),
{
    let ghost lv = names_view(lines@);
    let mut out: Vec<char> = Vec::new();
    let mut j: usize = from;
    while j < to
        invariant
            from <= j <= to <= lines@.len(),
            lv == names_view(lines@),
            out@ == join_lines(lv, from as int, j as int),
        decreases to - j,
    {
        if j > from {
            out.push('|');
        }
        let line = &lines[j];
        let mut i: usize = 0;
        let ghost head = out@;
        while i < line.len()
            invariant
                i <= line@.len(),
                line@ == lines@[j as int]@,
                out@ == head + line@.take(i as int),
            decreases line@.len() - i,
        {
            out.push(line[i]);
            proof {
                assert(head + line@.take(i as int) + seq![line@[i as int]] =~= head + line@.take(
                    i as int + 1,
                ));
            }
            i = i + 1;
        }
        proof {
            assert(line@.take(line@.len() as int) =~= line@);
            if j > from {
                assert(out@ =~= join_lines(lv, from as int, j as int) + seq!['|'] + lv[j as int]);
            } else {
                assert(out@ =~= lv[from as int]);
            }
        }
        j = j + 1;
    }
    out
}

/// Groups lines into registry calls: chunks of `CHUNK` lines, each joined
/// with `|`, covering all lines in order.
pub fn registry_calls(lines: &Vec<Vec<char>>) -> (r: Vec<Vec<char>>)
    ensures
        r@.len() == call_count(lines@.len() as int),
        forall|i: int|
            0 <= i < r@.len() ==> (#[trigger] r@[i])@ == join_lines(
                names_view(lines@),
                call_range(lines@.len() as int, i).0,
                call_range(lines@.len() as int, i).1,
            ),
{
    let n = lines.len();
    let mut r: Vec<Vec<char>> = Vec::new();
    let mut from: usize = 0;
    proof {
        if n > 0 {
            lemma_more_calls(n as int, 0);
        }
    }
    while from < n
        invariant
            n == lines@.len(),
            from <= n,
            from < n ==> from == CHUNK as int * r@.len() && r@.len() < call_count(n as int),
            from == n ==> r@.len() == call_count(n as int),
            forall|i: int|
                0 <= i < r@.len() ==> (#[trigger] r@[i])@ == join_lines(
                    names_view(lines@),
                    call_range(n as int, i).0,
                    call_range(n as int, i).1,
                ),
        decreases n - from,
    {
        let to: usize = if n - from > CHUNK {
            from + CHUNK
        } else {
            n
        };
        proof {
            lemma_call_sizes(n as int, r@.len() as int);
        }
        let call = join_range(lines, from, to);
        r.push(call);
        proof {
            let k = CHUNK as int;
            let c = r@.len() - 1;
            assert(call_range(n as int, c) == (k * c, to as int));
            assert(k * (c + 1) == k * c + k) by (nonlinear_arith);
        }
        from = to;
        proof {
            let k = CHUNK as int;
            let c = r@.len() as int;
            if from < n {
                assert(to as int == k * (c - 1) + k);
                assert(k * c == k * (c - 1) + k) by (nonlinear_arith);
                lemma_more_calls(n as int, c);
            } else {
                assert(k * (c - 1) < n as int <= k * (c - 1) + k);
                assert(k * c == k * (c - 1) + k) by (nonlinear_arith);
                assert(c == (n as int + k - 1) / k) by (nonlinear_arith)
                    requires
                        k == 50,
                        k * (c - 1) < n as int <= k * c,
                ;
            }
        }
    }
    proof {
        if n == 0 {
            assert(call_count(0) == 0);
        }
    }
    r
}

/// While lines remain, more calls follow.
proof fn lemma_more_calls(n: int, c: int)
    requires
        0 <= c,
        CHUNK as int * c < n,
    ensures
        c < call_count(n),
{
    let k = CHUNK as int;
    assert(c < (n + k - 1) / k) by (nonlinear_arith)
        requires
            k == 50,
            k * c < n,
            0 <= c,
    ;
}

impl Manager {
    /// The registry lines for the additions of this run: one line per added
    /// name, in scan order, carrying the position the allocator assigned.
    /// Every added name must by now hold a position in the table (the
    /// composing pass looks each one up before this is called).
    pub fn addition_lines(&self) -> (r: Vec<Vec<char>>)
        requires
            self.wf(),
            forall|k: int|
                0 <= k < self.added@.len() ==> has_name(self.table@, names_view(self.added@)[k]),
        ensures
            r@.len() == self.added@.len(),
            forall|k: int|
                0 <= k < r@.len() ==> (#[trigger] r@[k])@ == tile_line_spec(
                    tile_pos_of(self.table@, names_view(self.added@)[k]),
                    names_view(self.added@)[k],
                ),
    {
        let mut r: Vec<Vec<char>> = Vec::new();
        let mut k: usize = 0;
        while k < self.added.len()
            invariant
                self.wf(),
                forall|j: int|
                    0 <= j < self.added@.len() ==> has_name(
                        self.table@,
                        names_view(self.added@)[j],
                    ),
                k <= self.added@.len(),
                r@.len() == k,
                forall|j: int|
                    0 <= j < k ==> (#[trigger] r@[j])@ == tile_line_spec(
                        tile_pos_of(self.table@, names_view(self.added@)[j]),
                        names_view(self.added@)[j],
                    ),
            decreases self.added@.len() - k,
        {
            let name = &self.added[k];
            let found = crate::manager::find_row(&self.table, name);
            let i = match found {
                Some(i) => i,
                None => {
                    proof {
                        assert(has_name(self.table@, names_view(self.added@)[k as int]));
                        assert(false);
                    }
                    0
                },
            };
            proof {
                lemma_tile_pos_of(self.table@, name@, i as int);
            }
            let line = tile_line(self.table[i].tile.pos, name);
            r.push(line);
            k = k + 1;
        }
        r
    }

    /// The registry lines for the deletions of this run: each recorded
    /// registry identifier in decimal, in the order recorded.
    pub fn deletion_lines(&self) -> (r: Vec<Vec<char>>)
        ensures
            r@.len() == self.deleted@.len(),
            forall|k: int|
                0 <= k < r@.len() ==> (#[trigger] r@[k])@ == dec_rep(self.deleted@[k] as int),
    {
        let mut r: Vec<Vec<char>> = Vec::new();
        let mut k: usize = 0;
        while k < self.deleted.len()
            invariant
                k <= self.deleted@.len(),
                r@.len() == k,
                forall|j: int|
                    0 <= j < k ==> (#[trigger] r@[j])@ == dec_rep(self.deleted@[j] as int),
            decreases self.deleted@.len() - k,
        {
            let mut line: Vec<char> = Vec::new();
            push_dec(&mut line, self.deleted[k]);
            proof {
                assert(line@ =~= dec_rep(self.deleted@[k as int] as int));
            }
            r.push(line);
            k = k + 1;
        }
        r
    }
}

/// The position recorded for a name (any row carrying the name; with a
/// well-formed table there is at most one).
pub open spec fn tile_pos_of(t: Seq<Row>, n: Seq<char>) -> TilePos {
    t[choose|i: int| 0 <= i < t.len() && t[i].name@ == n].tile.pos
}

/// In a well-formed table, every row carrying a name holds the recorded
/// position of that name.
pub proof fn lemma_tile_pos_of(t: Seq<Row>, n: Seq<char>, i: int)
    requires
        wf_table(t),
        0 <= i < t.len(),
        t[i].name@ == n,
    ensures
        tile_pos_of(t, n) == t[i].tile.pos,
{
    let j = choose|j: int| 0 <= j < t.len() && t[j].name@ == n;
    if j != i {
        assert(t[i].name@ != t[j].name@);
    }
}

} // verus!
