use vstd::prelude::*;
use vstd::string::StringSliceAdditionalSpecFns;

verus! {

/// Whether `c` has the Unicode `White_Space` property.
pub open spec fn is_white(c: char) -> bool {
    let u = c as u32;
    (9 <= u && u <= 13) || u == 32 || u == 0x85 || u == 0xa0 || u == 0x1680 || (0x2000 <= u
        && u <= 0x200a) || u == 0x2028 || u == 0x2029 || u == 0x202f || u == 0x205f || u == 0x3000
}

/// `s` without its trailing white space.
pub open spec fn trim_end(s: Seq<char>) -> Seq<char>
    decreases s.len(),
{
    if s.len() > 0 && is_white(s.last()) {
        trim_end(s.drop_last())
    } else {
        s
    }
}

/// `s` with every line feed taken out.
pub open spec fn strip_newlines(s: Seq<char>) -> Seq<char> {
    s.filter(|c: char| c != '\n')
}

/// Whether `c` is white space, as `char::is_whitespace` decides it.
pub fn is_white_char(c: char) -> (r: bool)
    ensures
        r == is_white(c),
{
    let u = c as u32;
    (9 <= u && u <= 13) || u == 32 || u == 0x85 || u == 0xa0 || u == 0x1680 || (0x2000 <= u
        && u <= 0x200a) || u == 0x2028 || u == 0x2029 || u == 0x202f || u == 0x205f || u == 0x3000
}

/// Drops the trailing white space of `s`.
pub fn trim_end_inplace(s: &mut String)
    ensures
        final(s)@ == trim_end(old(s)@),
{
    let n = s.as_str().unicode_len();
    let mut k: usize = n;
    assert(s@.subrange(0, n as int) =~= s@);
    while k > 0 && is_white_char(s.as_str().get_char(k - 1))
        invariant
            k <= s@.len(),
            trim_end(s@) == trim_end(s@.subrange(0, k as int)),
        decreases k,
    {
        assert(s@.subrange(0, k as int).drop_last() =~= s@.subrange(0, k - 1));
        k = k - 1;
    }
    let t = s.as_str().substring_char(0, k).to_owned();
    *s = t;
}

/// Relies on `str::replace`: every match of the pattern is replaced, here by nothing.
#[verifier::external_body]
fn replace_newlines(s: &str) -> (r: String)
    ensures
        r@ == strip_newlines(s@),
{
    s.replace('\n', "")
}

/// `s` with its line feeds removed.
pub fn remove_enter(s: &str) -> (r: String)
    ensures
        r@ == strip_newlines(s@),
{
    replace_newlines(s)
}

/// The pieces of `b` between commas; there is always at least one.
pub open spec fn split_commas(b: Seq<u8>) -> Seq<Seq<u8>>
    decreases b.len(),
{
    if b.len() == 0 {
        seq![Seq::<u8>::empty()]
    } else {
        let p = split_commas(b.drop_last());
        if b.last() == 44u8 {
            p.push(Seq::<u8>::empty())
        } else {
            p.update(p.len() - 1, p.last().push(b.last()))
        }
    }
}

pub open spec fn is_digit(c: u8) -> bool {
    48 <= c && c <= 57
}

/// `d` is made of decimal digits only.
pub open spec fn all_digits(d: Seq<u8>) -> bool {
    forall|i: int| 0 <= i < d.len() ==> is_digit(#[trigger] d[i])
}

/// The number written by the decimal digits `d`.
pub open spec fn digits_value(d: Seq<u8>) -> int
    decreases d.len(),
{
    if d.len() == 0 {
        0
    } else {
        digits_value(d.drop_last()) * 10 + (d.last() - 48)
    }
}

/// The `i32` that `p` writes, as `str::parse` reads it: an optional sign, then
/// at least one decimal digit, and nothing else, within range.
pub open spec fn parse_int(p: Seq<u8>) -> Option<i32> {
    let neg = p.len() > 0 && p[0] == 45u8;
    let signed = p.len() > 0 && (p[0] == 45u8 || p[0] == 43u8);
    let d = if signed {
        p.drop_first()
    } else {
        p
    };
    let v = if neg {
        -digits_value(d)
    } else {
        digits_value(d)
    };
    if d.len() == 0 || !all_digits(d) {
        None
    } else if i32::MIN <= v && v <= i32::MAX {
        Some(v as i32)
    } else {
        None
    }
}

/// The numbers among `pieces`, in order; the others are skipped.
pub open spec fn parsed(pieces: Seq<Seq<u8>>) -> Seq<i32>
    decreases pieces.len(),
{
    if pieces.len() == 0 {
        Seq::empty()
    } else {
        let r = parsed(pieces.drop_last());
        match parse_int(pieces.last()) {
            Some(v) => r.push(v),
            None => r,
        }
    }
}

const BOUND: u64 = 2147483649;

proof fn lemma_digits_step(d: Seq<u8>, j: int, acc: int)
    requires
        0 <= j < d.len(),
        is_digit(d[j]),
        digits_value(d.subrange(0, j)) >= 0,
        acc == (if digits_value(d.subrange(0, j)) < BOUND {
            digits_value(d.subrange(0, j))
        } else {
            BOUND as int
        }),
    ensures
        digits_value(d.subrange(0, j + 1)) == digits_value(d.subrange(0, j)) * 10 + (d[j] - 48),
        digits_value(d.subrange(0, j + 1)) >= 0,
        (if acc * 10 + (d[j] - 48) > BOUND {
            BOUND as int
        } else {
            acc * 10 + (d[j] - 48)
        }) == (if digits_value(d.subrange(0, j + 1)) < BOUND {
            digits_value(d.subrange(0, j + 1))
        } else {
            BOUND as int
        }),
{
    assert(d.subrange(0, j + 1).drop_last() =~= d.subrange(0, j));
}

/// Reads `p` as `str::parse::<i32>` does.
fn parse_piece(p: &Vec<u8>) -> (r: Option<i32>)
    ensures
        r == parse_int(p@),
{
    let n = p.len();
    let neg = n > 0 && p[0] == 45u8;
    let signed = n > 0 && (p[0] == 45u8 || p[0] == 43u8);
    let start: usize = if signed {
        1
    } else {
        0
    };
    let ghost d = p@.subrange(start as int, n as int);
    assert(d =~= (if signed {
        p@.drop_first()
    } else {
        p@
    }));
    if start == n {
        return None;
    }
    let mut acc: u64 = 0;
    let mut k: usize = start;
    assert(d.subrange(0, 0) =~= Seq::<u8>::empty());
    while k < n
        invariant
            start <= k <= n,
            n == p@.len(),
            d == p@.subrange(start as int, n as int),
            d == (if signed {
                p@.drop_first()
            } else {
                p@
            }),
            signed == (p@.len() > 0 && (p@[0] == 45u8 || p@[0] == 43u8)),
            neg == (p@.len() > 0 && p@[0] == 45u8),
            forall|i: int| 0 <= i < k - start ==> is_digit(#[trigger] d[i]),
            digits_value(d.subrange(0, k - start)) >= 0,
            acc == (if digits_value(d.subrange(0, k - start)) < BOUND {
                digits_value(d.subrange(0, k - start))
            } else {
                BOUND as int
            }),
        decreases n - k,
    {
        let c = p[k];
        assert(d[k - start] == c);
        if c < 48 || c > 57 {
            assert(!all_digits(d));
            return None;
        }
        proof {
            lemma_digits_step(d, k - start, acc as int);
        }
        let v = acc * 10 + (c - 48) as u64;
        acc = if v > BOUND {
            BOUND
        } else {
            v
        };
        k = k + 1;
    }
    assert(d.subrange(0, d.len() as int) =~= d);
    assert(all_digits(d));
    if neg {
        if acc > 2147483648 {
            None
        } else {
            Some((0 - (acc as i64)) as i32)
        }
    } else {
        if acc > 2147483647 {
            None
        } else {
            Some(acc as i32)
        }
    }
}

proof fn lemma_split_nonempty(b: Seq<u8>)
    ensures
        split_commas(b).len() >= 1,
    decreases b.len(),
{
    if b.len() > 0 {
        lemma_split_nonempty(b.drop_last());
    }
}

/// The numbers in a comma-separated list; pieces that are not numbers are
/// skipped.
pub fn get_ids_from_str(s: &str) -> (r: Vec<i32>)
    ensures
        r@ == parsed(split_commas(s.spec_bytes())),
{
    let b = s.as_bytes();
    let ghost bs = b@;
    let mut out: Vec<i32> = Vec::new();
    let mut cur: Vec<u8> = Vec::new();
    let ghost mut done: Seq<Seq<u8>> = Seq::empty();
    let mut i: usize = 0;
    assert(bs.subrange(0, 0) =~= Seq::<u8>::empty());
    assert(split_commas(Seq::<u8>::empty()) =~= done.push(cur@));
    while i < b.len()
        invariant
            bs == b@,
            i <= bs.len(),
            split_commas(bs.subrange(0, i as int)) == done.push(cur@),
            out@ == parsed(done),
        decreases bs.len() - i,
    {
        let c = b[i];
        proof {
            assert(bs.subrange(0, i + 1).drop_last() =~= bs.subrange(0, i as int));
            assert(bs.subrange(0, i + 1).last() == c);
        }
        if c == 44u8 {
            let ghost piece = cur@;
            if let Some(v) = parse_piece(&cur) {
                out.push(v);
            }
            proof {
                assert(done.push(piece).drop_last() =~= done);
                done = done.push(piece);
            }
            cur = Vec::new();
            assert(split_commas(bs.subrange(0, i + 1)) =~= done.push(cur@));
        } else {
            let ghost before = cur@;
            cur.push(c);
            assert(split_commas(bs.subrange(0, i + 1)) =~= done.push(cur@)) by {
                assert(done.push(before).update(done.len() as int, before.push(c)) =~= done.push(
                    cur@,
                ));
            }
        }
        i = i + 1;
    }
    assert(bs.subrange(0, bs.len() as int) =~= bs);
    if let Some(v) = parse_piece(&cur) {
        out.push(v);
    }
    assert(done.push(cur@).drop_last() =~= done);
    out
}

} // verus!
