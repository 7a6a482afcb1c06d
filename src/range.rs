//! The `Range` request header of static files: one byte range, in the
//! forms `a-b`, `a-` and `-n`.
use vstd::prelude::*;

use crate::text::{
    chars_of, contains, contains_spec, parse_u64, parse_u64_spec, trim_end_index,
    trim_start_index, trim_spec,
};

verus! {

/// Which bytes of a file of `len` bytes a response carries.
#[derive(PartialEq, Eq, Structural, Clone, Copy, Debug)]
pub enum ByteRange {
    /// The whole file.
    Full,
    /// Bytes `start` to `end`, both included.
    Partial { start: u64, end: u64 },
    /// The range asked for lies outside the file.
    Unsatisfiable,
}

/// Where `c` first occurs in `s`.
pub open spec fn first_index(s: Seq<char>, c: char) -> Option<int>
    decreases s.len(),
{
    if s.len() == 0 {
        None
    } else {
        match first_index(s.drop_last(), c) {
            Some(i) => Some(i),
            None => if s.last() == c {
                Some(s.len() - 1)
            } else {
                None
            },
        }
    }
}

pub open spec fn saturating_sub(a: u64, b: u64) -> u64 {
    if a >= b {
        (a - b) as u64
    } else {
        0
    }
}

pub open spec fn bytes_prefix() -> Seq<char> {
    seq!['b', 'y', 't', 'e', 's', '=']
}

/// The bytes `(start, end)` that a header value asks for in a file of
/// `len` bytes, before they are checked against the file; `None` when the
/// value asks for the whole file (another unit, several ranges, or a form
/// that does not parse).
pub open spec fn requested_range(v: Seq<char>, len: u64) -> Option<(u64, u64)> {
    if v.len() < 6 || v.take(6) != bytes_prefix() {
        None
    } else {
        let r = v.skip(6);
        if contains_spec(r, seq![',']) {
            None
        } else {
            match first_index(r, '-') {
                None => None,
                Some(k) => {
                    if contains_spec(r.skip(k + 1), seq!['-']) {
                        None
                    } else {
                        let s = trim_spec(r.take(k));
                        let e = trim_spec(r.skip(k + 1));
                        let last = saturating_sub(len, 1);
                        if s.len() == 0 && e.len() > 0 {
                            match parse_u64_spec(e) {
                                Some(n) => if n > 0 {
                                    Some((saturating_sub(len, n), last))
                                } else {
                                    None
                                },
                                None => None,
                            }
                        } else if s.len() > 0 {
                            match parse_u64_spec(s) {
                                Some(a) => {
                                    let end = if e.len() == 0 {
                                        last
                                    } else {
                                        match parse_u64_spec(e) {
                                            Some(b) => if b < last {
                                                b
                                            } else {
                                                last
                                            },
                                            None => last,
                                        }
                                    };
                                    Some((a, end))
                                },
                                None => None,
                            }
                        } else {
                            None
                        }
                    }
                },
            }
        }
    }
}

/// What a static response over a file of `len` bytes carries, given the
/// value of its first `Range` header (`None`: no such header, or one that
/// is not UTF-8).
pub open spec fn byte_range_spec(value: Option<Seq<char>>, len: u64) -> ByteRange {
    match value {
        None => ByteRange::Full,
        Some(v) => match requested_range(v, len) {
            None => ByteRange::Full,
            Some((a, b)) => if a > b || a >= len {
                ByteRange::Unsatisfiable
            } else {
                ByteRange::Partial { start: a, end: b }
            },
        },
    }
}

proof fn lemma_first_index_stable(s: Seq<char>, c: char, m: int)
    requires
        0 <= m <= s.len(),
        first_index(s.take(m), c) is Some,
    ensures
        first_index(s, c) == first_index(s.take(m), c),
    decreases s.len() - m,
{
    if m < s.len() {
        assert(s.take(m + 1).drop_last() == s.take(m));
        lemma_first_index_stable(s, c, m + 1);
    } else {
        assert(s.take(m) == s);
    }
}

proof fn lemma_first_index_absent(s: Seq<char>, c: char)
    requires
        forall|i: int| 0 <= i < s.len() ==> s[i] != c,
    ensures
        first_index(s, c) is None,
    decreases s.len(),
{
    if s.len() > 0 {
        lemma_first_index_absent(s.drop_last(), c);
    }
}

fn copy_range(v: &Vec<char>, from: usize, to: usize) -> (r: Vec<char>)
    requires
        from <= to <= v.len(),
    ensures
        r@ == v@.subrange(from as int, to as int),
{
    let mut r: Vec<char> = Vec::new();
    let mut i = from;
    while i < to
        invariant
            from <= i <= to <= v.len(),
            r@ == v@.subrange(from as int, i as int),
        decreases to - i,
    {
        r.push(v[i]);
        i = i + 1;
    }
    r
}

/// Trims white space off both ends of `x` and reads what is left as a
/// number: `(trimmed is empty, number)`.
fn trimmed_number(x: &Vec<char>) -> (r: (bool, Option<u64>))
    ensures
        r.0 == (trim_spec(x@).len() == 0),
        r.1 == parse_u64_spec(trim_spec(x@)),
{
    let i = trim_start_index(x.as_slice());
    let j = trim_end_index(x.as_slice(), i);
    (i == j, parse_u64(x.as_slice(), i, j))
}

/// The bytes `(start, end)` that the header value `v` asks for in a file
/// of `len` bytes (see `requested_range`).
pub fn requested_range_exec(v: &str, len: u64) -> (r: Option<(u64, u64)>)
    ensures
        r == requested_range(v@, len),
{
    let cs = chars_of(v);
    if cs.len() < 6 || !(cs[0] == 'b' && cs[1] == 'y' && cs[2] == 't' && cs[3] == 'e' && cs[4] == 's'
        && cs[5] == '=') {
        proof {
            if cs.len() >= 6 {
                assert(cs@.take(6) != bytes_prefix()) by {
                    if cs@.take(6) == bytes_prefix() {
                        assert(cs@.take(6)[0] == 'b' && cs@.take(6)[1] == 'y' && cs@.take(6)[2] == 't'
                            && cs@.take(6)[3] == 'e' && cs@.take(6)[4] == 's' && cs@.take(6)[5]
                            == '=');
                    }
                }
            }
        }
        return None;
    }
    assert(cs@.take(6) =~= bytes_prefix());
    let r = copy_range(&cs, 6, cs.len());
    assert(r@ == cs@.skip(6));
    let comma = [','];
    assert(comma@ =~= seq![',']);
    if contains(r.as_slice(), &comma) {
        return None;
    }
    let mut k: usize = 0;
    while k < r.len() && r[k] != '-'
        invariant
            k <= r.len(),
            forall|i: int| 0 <= i < k ==> r@[i] != '-',
        decreases r.len() - k,
    {
        k = k + 1;
    }
    if k == r.len() {
        proof {
            lemma_first_index_absent(r@, '-');
        }
        return None;
    }
    proof {
        lemma_first_index_absent(r@.take(k as int), '-');
        assert(r@.take(k + 1).drop_last() == r@.take(k as int));
        lemma_first_index_stable(r@, '-', k + 1);
    }
    let head = copy_range(&r, 0, k);
    let tail = copy_range(&r, k + 1, r.len());
    assert(head@ == r@.take(k as int));
    assert(tail@ == r@.skip(k + 1));
    let dash = ['-'];
    assert(dash@ =~= seq!['-']);
    if contains(tail.as_slice(), &dash) {
        return None;
    }
    assert(first_index(v@.skip(6), '-') == Some(k as int));
    let last: u64 = if len >= 1 {
        len - 1
    } else {
        0
    };
    let (s_empty, s_num) = trimmed_number(&head);
    let (e_empty, e_num) = trimmed_number(&tail);
    if s_empty && !e_empty {
        match e_num {
            Some(n) => {
                if n > 0 {
                    let start = if len >= n {
                        len - n
                    } else {
                        0
                    };
                    Some((start, last))
                } else {
                    None
                }
            },
            None => None,
        }
    } else if !s_empty {
        match s_num {
            Some(a) => {
                let end = if e_empty {
                    last
                } else {
                    match e_num {
                        Some(b) => if b < last {
                            b
                        } else {
                            last
                        },
                        None => last,
                    }
                };
                Some((a, end))
            },
            None => None,
        }
    } else {
        None
    }
}

/// Decides which bytes of a file of `len` bytes a static response carries,
/// from the value of its first `Range` header (`None`: there is none, or
/// it is not UTF-8). A range that starts after it ends, or at or past the
/// end of the file, cannot be satisfied.
pub fn byte_range(value: Option<&str>, len: u64) -> (r: ByteRange)
    ensures
        r == byte_range_spec(
            match value {
                Some(v) => Some(v@),
                None => None,
            },
            len,
        ),
{
    match value {
        None => ByteRange::Full,
        Some(v) => match requested_range_exec(v, len) {
            None => ByteRange::Full,
            Some((a, b)) => if a > b || a >= len {
                ByteRange::Unsatisfiable
            } else {
                ByteRange::Partial { start: a, end: b }
            },
        },
    }
}

} // verus!
