//! Line splitting and small text helpers shared by the SMTP and mail modules.

use vstd::prelude::*;
use vstd::utf8::encode_utf8;

verus! {

/// Appends one character to a `String`.
pub assume_specification[ String::push ](s: &mut String, c: char)
    ensures
        final(s)@ == old(s)@.push(c),
;

/// The number of bytes in the UTF-8 form of `s`, as `str::len` gives it.
pub open spec fn octets(s: Seq<char>) -> usize {
    encode_utf8(s).len() as usize
}

/// The pieces of `s` between `'\n'` characters: one more piece than there are
/// line feeds.
pub open spec fn split_lf(s: Seq<char>) -> Seq<Seq<char>>
    decreases s.len(),
{
    if s.len() == 0 {
        seq![Seq::<char>::empty()]
    } else {
        let p = split_lf(s.drop_last());
        if s.last() == '\n' {
            p.push(Seq::<char>::empty())
        } else {
            p.update(p.len() - 1, p.last().push(s.last()))
        }
    }
}

pub proof fn lemma_split_lf_nonempty(s: Seq<char>)
    ensures
        split_lf(s).len() >= 1,
    decreases s.len(),
{
    if s.len() > 0 {
        lemma_split_lf_nonempty(s.drop_last());
    }
}

/// A piece without the one carriage return that may end it.
pub open spec fn strip_cr(l: Seq<char>) -> Seq<char> {
    if l.len() > 0 && l.last() == '\r' {
        l.drop_last()
    } else {
        l
    }
}

/// The character sequences held by a sequence of strings.
pub open spec fn views(v: Seq<String>) -> Seq<Seq<char>> {
    v.map_values(|l: String| l@)
}

/// Each piece without the carriage return that may end it.
pub open spec fn stripped(p: Seq<Seq<char>>) -> Seq<Seq<char>> {
    p.map_values(|l: Seq<char>| strip_cr(l))
}

/// The lines of `s`: split at line feeds, each line ended by a line feed
/// without the carriage return just before it, and no empty last line after a
/// final line feed. A last line that no line feed ends is kept as it is.
pub open spec fn lines_of(s: Seq<char>) -> Seq<Seq<char>> {
    let p = split_lf(s);
    if p.last().len() == 0 {
        stripped(p.drop_last())
    } else {
        stripped(p.drop_last()).push(p.last())
    }
}

pub fn split_lines(s: &str) -> (r: Vec<String>)
    ensures
        views(r@) == lines_of(s@),
{
    let mut done: Vec<String> = Vec::new();
    let mut cur = String::new();
    let mut pending_cr = false;
    let ghost mut seen: Seq<char> = Seq::empty();
    proof { lemma_split_lf_nonempty(seen); }
    for c in it: s.chars()
        invariant
            seen == it.seq().subrange(0, it.index() as int),
            it.seq() == s@,
            split_lf(seen).len() >= 1,
            views(done@) == stripped(split_lf(seen).drop_last()),
            pending_cr ==> split_lf(seen).last() == cur@.push('\r'),
            !pending_cr ==> split_lf(seen).last() == cur@,
            !pending_cr ==> strip_cr(cur@) == cur@,
    {
        let ghost before = split_lf(seen);
        proof {
            assert(seen.push(c).drop_last() == seen);
            lemma_split_lf_nonempty(seen.push(c));
        }
        if c == '\n' {
            proof {
                assert(split_lf(seen.push(c)).drop_last() == before);
                assert(before == before.drop_last().push(before.last()));
                assert(stripped(before) == stripped(before.drop_last()).push(strip_cr(before.last())));
            }
            let ghost old_done = done@;
            let ghost cv = cur@;
            done.push(cur);
            proof {
                assert(views(done@) == views(old_done).push(cv));
                if pending_cr {
                    assert(cv.push('\r').drop_last() == cv);
                }
                assert(cv == strip_cr(before.last()));
                assert(views(done@) == stripped(before));
            }
            cur = String::new();
            pending_cr = false;
        } else {
            proof {
                assert(split_lf(seen.push(c)).drop_last() == before.drop_last());
            }
            if pending_cr {
                cur.push('\r');
            }
            if c == '\r' {
                pending_cr = true;
            } else {
                cur.push(c);
                pending_cr = false;
            }
        }
        proof {
            seen = seen.push(c);
            assert(seen == it.seq().subrange(0, it.index() as int + 1));
        }
    }
    let ghost p = split_lf(s@);
    proof {
        assert(seen == s@);
    }
    if pending_cr {
        cur.push('\r');
    }
    if !cur.as_str().is_empty() {
        let ghost old_done = done@;
        let ghost cv = cur@;
        done.push(cur);
        proof {
            assert(views(done@) == views(old_done).push(cv));
        }
    }
    done
}

/// `ls` joined with `"\r\n"` between consecutive lines.
pub open spec fn join_crlf(ls: Seq<Seq<char>>) -> Seq<char>
    decreases ls.len(),
{
    if ls.len() == 0 {
        Seq::empty()
    } else if ls.len() == 1 {
        ls[0]
    } else {
        join_crlf(ls.drop_last()) + seq!['\r', '\n'] + ls.last()
    }
}

/// Joins `lines[lo..hi]` with `"\r\n"` between consecutive lines.
pub fn join_lines(lines: &Vec<String>, lo: usize, hi: usize) -> (r: String)
    requires
        lo <= hi <= lines@.len(),
    ensures
        r@ == join_crlf(views(lines@).subrange(lo as int, hi as int)),
{
    let mut r = String::new();
    let mut i: usize = lo;
    while i < hi
        invariant
            lo <= i <= hi <= lines@.len(),
            r@ == join_crlf(views(lines@).subrange(lo as int, i as int)),
        decreases hi - i,
    {
        let ghost part = views(lines@).subrange(lo as int, i as int + 1);
        proof {
            assert(part.drop_last() == views(lines@).subrange(lo as int, i as int));
            assert(part.last() == lines@[i as int]@);
        }
        if i > lo {
            r.append("\r\n");
            proof {
                reveal_strlit("\r\n");
            }
        }
        r.append(lines[i].as_str());
        i += 1;
    }
    r
}

/// The decimal digits, in order.
pub open spec fn digits() -> Seq<char> {
    seq!['0', '1', '2', '3', '4', '5', '6', '7', '8', '9']
}

/// The decimal representation of `n`, without leading zeros.
pub open spec fn decimal(n: nat) -> Seq<char>
    decreases n,
{
    if n < 10 {
        seq![digits()[n as int]]
    } else {
        decimal(n / 10).push(digits()[(n % 10) as int])
    }
}

/// The decimal representation of a signed integer, with `'-'` before a
/// negative one.
pub open spec fn signed_decimal(n: int) -> Seq<char> {
    if n < 0 {
        seq!['-'] + decimal((-n) as nat)
    } else {
        decimal(n as nat)
    }
}

fn digit_char(d: u64) -> (c: char)
    requires
        d < 10,
    ensures
        c == digits()[d as int],
{
    if d == 0 {
        '0'
    } else if d == 1 {
        '1'
    } else if d == 2 {
        '2'
    } else if d == 3 {
        '3'
    } else if d == 4 {
        '4'
    } else if d == 5 {
        '5'
    } else if d == 6 {
        '6'
    } else if d == 7 {
        '7'
    } else if d == 8 {
        '8'
    } else {
        '9'
    }
}

/// Appends the decimal representation of `n` to `s`.
pub fn push_decimal(s: &mut String, n: u64)
    ensures
        final(s)@ == old(s)@ + decimal(n as nat),
    decreases n,
{
    if n >= 10 {
        push_decimal(s, n / 10);
    }
    s.push(digit_char(n % 10));
    proof {
        assert(old(s)@ + decimal(n as nat) == if n >= 10 {
            old(s)@ + decimal((n / 10) as nat) + seq![digits()[(n % 10) as int]]
        } else {
            old(s)@ + seq![digits()[(n % 10) as int]]
        });
    }
}

/// Appends the decimal representation of a signed `n` to `s`.
pub fn push_signed_decimal(s: &mut String, n: i64)
    ensures
        final(s)@ == old(s)@ + signed_decimal(n as int),
{
    if n < 0 {
        s.push('-');
        let magnitude: u64 = ((-(n + 1)) as u64) + 1;
        push_decimal(s, magnitude);
        proof {
            assert(old(s)@.push('-') + decimal(magnitude as nat) == old(s)@ + (seq!['-'] + decimal(magnitude as nat)));
        }
    } else {
        push_decimal(s, n as u64);
    }
}

/// The characters of `s`.
pub fn chars_of(s: &str) -> (r: Vec<char>)
    ensures
        r@ == s@,
{
    let mut r: Vec<char> = Vec::new();
    for c in it: s.chars()
        invariant
            it.seq() == s@,
            r@ == it.seq().take(it.index() as int),
    {
        proof {
            assert(it.seq().take(it.index() as int + 1) == r@.push(c));
        }
        r.push(c);
    }
    proof {
        assert(s@.take(s@.len() as int) == s@);
    }
    r
}

/// The string of the characters `cs[lo..hi]`.
pub fn string_of(cs: &Vec<char>, lo: usize, hi: usize) -> (r: String)
    requires
        lo <= hi <= cs@.len(),
    ensures
        r@ == cs@.subrange(lo as int, hi as int),
{
    let mut r = String::new();
    let mut i: usize = lo;
    while i < hi
        invariant
            lo <= i <= hi <= cs@.len(),
            r@ == cs@.subrange(lo as int, i as int),
        decreases hi - i,
    {
        r.push(cs[i]);
        proof {
            assert(cs@.subrange(lo as int, i as int + 1) == cs@.subrange(lo as int, i as int).push(
                cs@[i as int],
            ));
        }
        i += 1;
    }
    r
}

} // verus!
