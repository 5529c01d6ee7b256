//! Byte-level scanning of raw counter text.
//!
//! The kernel counter files are lines of whitespace-separated fields, most of
//! them decimal numbers. This module defines what those lines, fields and
//! numbers are, as functions of the raw byte sequence, and provides verified
//! splitters and a verified decimal parser against those definitions.

use vstd::prelude::*;

verus! {

/// Bytes that separate fields within a line: space, horizontal tab, vertical
/// tab, form feed and carriage return. Line feeds separate lines instead and
/// never occur inside one.
pub open spec fn is_space(b: u8) -> bool {
    b == 32 || b == 9 || b == 11 || b == 12 || b == 13
}

/// ASCII decimal digits.
pub open spec fn is_digit(b: u8) -> bool {
    48 <= b <= 57
}

/// Index of the first line feed in `s`, or `s.len()` if there is none.
pub open spec fn find_newline(s: Seq<u8>) -> nat
    decreases s.len(),
{
    if s.len() == 0 {
        0
    } else if s[0] == 10 {
        0
    } else {
        1 + find_newline(s.subrange(1, s.len() as int))
    }
}

/// Index of the first whitespace byte in `s`, or `s.len()` if there is none.
pub open spec fn find_space(s: Seq<u8>) -> nat
    decreases s.len(),
{
    if s.len() == 0 {
        0
    } else if is_space(s[0]) {
        0
    } else {
        1 + find_space(s.subrange(1, s.len() as int))
    }
}

/// The lines of `s`: maximal runs separated by line feeds. A trailing line
/// feed ends the last line rather than opening an empty one.
pub open spec fn lines_of(s: Seq<u8>) -> Seq<Seq<u8>>
    decreases s.len(),
{
    if s.len() == 0 {
        Seq::empty()
    } else {
        let i = find_newline(s);
        if i >= s.len() {
            seq![s]
        } else {
            seq![s.subrange(0, i as int)] + lines_of(s.subrange(i as int + 1, s.len() as int))
        }
    }
}

/// The whitespace-separated fields of one line, in order, with no empty
/// fields: runs of whitespace count as a single separator.
pub open spec fn fields_of(s: Seq<u8>) -> Seq<Seq<u8>>
    decreases s.len(),
{
    if s.len() == 0 {
        Seq::empty()
    } else if is_space(s[0]) {
        fields_of(s.subrange(1, s.len() as int))
    } else {
        let i = find_space(s);
        if i >= s.len() {
            seq![s]
        } else {
            seq![s.subrange(0, i as int)] + fields_of(s.subrange(i as int, s.len() as int))
        }
    }
}

/// Value of a run of decimal digits, most significant first.
pub open spec fn digits_val(s: Seq<u8>) -> nat
    decreases s.len(),
{
    if s.len() == 0 {
        0
    } else {
        digits_val(s.drop_last()) * 10 + (s.last() - 48) as nat
    }
}

/// Every byte of `s` is a decimal digit.
pub open spec fn all_digits(s: Seq<u8>) -> bool {
    forall|i: int| 0 <= i < s.len() ==> is_digit(#[trigger] s[i])
}

/// A field parses as a `u64`: nonempty, all digits, and small enough.
pub open spec fn parse_ok(s: Seq<u8>) -> bool {
    s.len() > 0 && all_digits(s) && digits_val(s) <= u64::MAX
}

/// The views of a sequence of byte vectors.
pub open spec fn views_of(v: Seq<Vec<u8>>) -> Seq<Seq<u8>> {
    v.map_values(|x: Vec<u8>| x@)
}

/// `find_newline` returns the index `i` exactly when no earlier byte is a
/// line feed and `i` is a line feed or the end.
pub proof fn lemma_find_newline(s: Seq<u8>, i: int)
    requires
        0 <= i <= s.len(),
        forall|k: int| 0 <= k < i ==> s[k] != 10,
        i == s.len() || s[i] == 10,
    ensures
        find_newline(s) == i,
    decreases s.len(),
{
    if s.len() == 0 {
    } else if s[0] == 10 {
        assert(i == 0);
    } else {
        let t = s.subrange(1, s.len() as int);
        assert(i >= 1);
        assert forall|k: int| 0 <= k < i - 1 implies t[k] != 10 by {
            assert(t[k] == s[k + 1]);
        }
        if i < s.len() {
            assert(t[i - 1] == s[i]);
        }
        lemma_find_newline(t, i - 1);
    }
}

/// The same characterization for `find_space`.
pub proof fn lemma_find_space(s: Seq<u8>, i: int)
    requires
        0 <= i <= s.len(),
        forall|k: int| 0 <= k < i ==> !is_space(s[k]),
        i == s.len() || is_space(s[i]),
    ensures
        find_space(s) == i,
    decreases s.len(),
{
    if s.len() == 0 {
    } else if is_space(s[0]) {
        assert(i == 0);
    } else {
        let t = s.subrange(1, s.len() as int);
        assert(i >= 1);
        assert forall|k: int| 0 <= k < i - 1 implies !is_space(t[k]) by {
            assert(t[k] == s[k + 1]);
        }
        if i < s.len() {
            assert(t[i - 1] == s[i]);
        }
        lemma_find_space(t, i - 1);
    }
}

/// A longer digit prefix never has a smaller value.
pub proof fn lemma_digits_val_mono(s: Seq<u8>, i: int, j: int)
    requires
        0 <= i <= j <= s.len(),
    ensures
        digits_val(s.take(i)) <= digits_val(s.take(j)),
    decreases j - i,
{
    if i < j {
        lemma_digits_val_mono(s, i, j - 1);
        assert(s.take(j).drop_last() =~= s.take(j - 1));
        assert(digits_val(s.take(j)) == digits_val(s.take(j - 1)) * 10 + (s.take(j).last() - 48) as nat);
    }
}

/// Whether `b` separates fields.
pub fn is_space_byte(b: u8) -> (r: bool)
    ensures
        r == is_space(b),
{
    b == 32 || b == 9 || b == 11 || b == 12 || b == 13
}

/// Copy `src[from..to]` into a fresh vector.
pub(crate) fn copy_range(src: &[u8], from: usize, to: usize) -> (r: Vec<u8>)
    requires
        from <= to <= src@.len(),
    ensures
        r@ == src@.subrange(from as int, to as int),
{
    let mut r: Vec<u8> = Vec::new();
    let mut k: usize = from;
    while k < to
        invariant
            from <= k <= to <= src@.len(),
            r@ == src@.subrange(from as int, k as int),
        decreases to - k,
    {
        let b = src[k];
        r.push(b);
        proof {
            assert(r@ =~= src@.subrange(from as int, (k + 1) as int));
        }
        k += 1;
    }
    r
}

/// Split the raw text into its lines.
pub fn split_lines(raw: &[u8]) -> (r: Vec<Vec<u8>>)
    ensures
        views_of(r@) == lines_of(raw@),
{
    let n: usize = raw.len();
    let mut r: Vec<Vec<u8>> = Vec::new();
    let mut pos: usize = 0;
    proof {
        assert(raw@.subrange(0, n as int) =~= raw@);
        assert(views_of(r@) + lines_of(raw@) =~= lines_of(raw@));
    }
    while pos < n
        invariant
            pos <= n,
            n == raw@.len(),
            views_of(r@) + lines_of(raw@.subrange(pos as int, n as int)) == lines_of(raw@),
        decreases n - pos,
    {
        let ghost rest = raw@.subrange(pos as int, n as int);
        let mut j: usize = pos;
        while j < n && raw[j] != 10
            invariant
                pos <= j <= n,
                n == raw@.len(),
                forall|k: int| pos <= k < j ==> raw@[k] != 10,
            decreases n - j,
        {
            j += 1;
        }
        proof {
            assert forall|k: int| 0 <= k < j - pos implies rest[k] != 10 by {
                assert(rest[k] == raw@[pos + k]);
            }
            if j < n {
                assert(rest[j - pos] == raw@[j as int]);
            }
            lemma_find_newline(rest, j - pos);
        }
        let piece = copy_range(raw, pos, j);
        let ghost r0 = r@;
        r.push(piece);
        proof {
            assert(views_of(r@) =~= views_of(r0).push(piece@));
            assert(piece@ =~= rest.subrange(0, j - pos));
        }
        if j < n {
            proof {
                assert(rest.subrange(j - pos + 1, rest.len() as int)
                    =~= raw@.subrange(j as int + 1, n as int));
                assert(views_of(r0).push(piece@) + lines_of(raw@.subrange(j as int + 1, n as int))
                    =~= views_of(r0) + lines_of(rest));
            }
            pos = j + 1;
        } else {
            pos = n;
            proof {
                assert(piece@ =~= rest);
                assert(lines_of(raw@.subrange(pos as int, n as int)) =~= Seq::<Seq<u8>>::empty());
                assert(views_of(r0).push(piece@) + lines_of(raw@.subrange(pos as int, n as int))
                    =~= views_of(r0) + lines_of(rest));
            }
        }
    }
    proof {
        assert(lines_of(raw@.subrange(pos as int, n as int)) =~= Seq::<Seq<u8>>::empty());
        assert(views_of(r@) =~= views_of(r@) + lines_of(raw@.subrange(pos as int, n as int)));
    }
    r
}

/// Split one line into its whitespace-separated fields.
pub fn split_fields(line: &[u8]) -> (r: Vec<Vec<u8>>)
    ensures
        views_of(r@) == fields_of(line@),
{
    let n: usize = line.len();
    let mut r: Vec<Vec<u8>> = Vec::new();
    let mut pos: usize = 0;
    proof {
        assert(line@.subrange(0, n as int) =~= line@);
        assert(views_of(r@) + fields_of(line@) =~= fields_of(line@));
    }
    while pos < n
        invariant
            pos <= n,
            n == line@.len(),
            views_of(r@) + fields_of(line@.subrange(pos as int, n as int)) == fields_of(line@),
        decreases n - pos,
    {
        let ghost rest = line@.subrange(pos as int, n as int);
        let b = line[pos];
        if is_space_byte(b) {
            proof {
                assert(rest[0] == line@[pos as int]);
                assert(rest.subrange(1, rest.len() as int)
                    =~= line@.subrange(pos + 1, n as int));
            }
            pos += 1;
        } else {
            let mut j: usize = pos;
            while j < n && !is_space_byte(line[j])
                invariant
                    pos <= j <= n,
                    n == line@.len(),
                    forall|k: int| pos <= k < j ==> !is_space(#[trigger] line@[k]),
                decreases n - j,
            {
                j += 1;
            }
            proof {
                assert(rest[0] == line@[pos as int]);
                assert forall|k: int| 0 <= k < j - pos implies !is_space(rest[k]) by {
                    assert(rest[k] == line@[pos + k]);
                }
                if j < n {
                    assert(rest[j - pos] == line@[j as int]);
                }
                lemma_find_space(rest, j - pos);
            }
            let piece = copy_range(line, pos, j);
            let ghost r0 = r@;
            r.push(piece);
            proof {
                assert(views_of(r@) =~= views_of(r0).push(piece@));
                assert(piece@ =~= rest.subrange(0, j - pos));
            }
            if j < n {
                proof {
                    assert(rest.subrange(j - pos, rest.len() as int)
                        =~= line@.subrange(j as int, n as int));
                    assert(views_of(r0).push(piece@)
                        + fields_of(line@.subrange(j as int, n as int))
                        =~= views_of(r0) + fields_of(rest));
                }
                pos = j;
            } else {
                pos = n;
                proof {
                    assert(piece@ =~= rest);
                    assert(fields_of(line@.subrange(pos as int, n as int))
                        =~= Seq::<Seq<u8>>::empty());
                    assert(views_of(r0).push(piece@)
                        + fields_of(line@.subrange(pos as int, n as int))
                        =~= views_of(r0) + fields_of(rest));
                }
            }
        }
    }
    proof {
        assert(fields_of(line@.subrange(pos as int, n as int)) =~= Seq::<Seq<u8>>::empty());
        assert(views_of(r@) =~= views_of(r@) + fields_of(line@.subrange(pos as int, n as int)));
    }
    r
}

/// Parse a whole field as a decimal `u64`.
pub fn parse_u64(field: &Vec<u8>) -> (r: Option<u64>)
    ensures
        parse_ok(field@) ==> r == Some(digits_val(field@) as u64),
        !parse_ok(field@) ==> r is None,
{
    if field.len() == 0 {
        return None;
    }
    let mut acc: u64 = 0;
    let mut i: usize = 0;
    while i < field.len()
        invariant
            i <= field@.len(),
            forall|k: int| 0 <= k < i ==> is_digit(#[trigger] field@[k]),
            acc == digits_val(field@.take(i as int)),
        decreases field@.len() - i,
    {
        let b = field[i];
        if b < 48 || b > 57 {
            proof {
                assert(!is_digit(field@[i as int]));
            }
            return None;
        }
        let d = (b - 48) as u64;
        let limit = (u64::MAX - d) / 10;
        proof {
            assert(u64::MAX - d == 10 * limit + ((u64::MAX - d) % 10));
            assert(field@.take(i + 1).drop_last() =~= field@.take(i as int));
            assert(field@.take(i + 1).last() == field@[i as int]);
            assert(digits_val(field@.take(i + 1)) == acc * 10 + d);
        }
        if acc > limit {
            proof {
                assert(acc * 10 + d > u64::MAX);
                lemma_digits_val_mono(field@, i + 1, field@.len() as int);
                assert(field@.take(field@.len() as int) =~= field@);
                assert(digits_val(field@) > u64::MAX);
            }
            return None;
        }
        proof {
            assert(acc * 10 + d <= u64::MAX);
        }
        acc = acc * 10 + d;
        i += 1;
    }
    proof {
        assert(field@.take(field@.len() as int) =~= field@);
    }
    Some(acc)
}

} // verus!
