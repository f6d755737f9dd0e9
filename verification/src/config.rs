use vstd::prelude::*;

verus! {

/// The byte of an ASCII dot.
pub const DOT: u8 = 46;

/// The byte of an ASCII plus sign.
pub const PLUS: u8 = 43;

/// Whether `b` is an ASCII decimal digit.
pub open spec fn is_ascii_digit(b: u8) -> bool {
    48 <= b <= 57
}

/// The number a sequence of ASCII digits denotes in decimal.
pub open spec fn digits_value(s: Seq<u8>) -> int
    decreases s.len(),
{
    if s.len() == 0 {
        0
    } else {
        digits_value(s.drop_last()) * 10 + (s.last() - 48)
    }
}

/// Whether every byte of `s` is an ASCII decimal digit.
pub open spec fn all_digits(s: Seq<u8>) -> bool {
    forall|i: int| 0 <= i < s.len() ==> is_ascii_digit(#[trigger] s[i])
}

/// The digits of a segment once an optional leading plus sign is taken
/// off, as the standard unsigned parse reads it.
pub open spec fn unsigned_body(s: Seq<u8>) -> Seq<u8> {
    if s.len() > 0 && s[0] == PLUS {
        s.drop_first()
    } else {
        s
    }
}

/// Whether a segment reads as an eight-bit number: an optional plus
/// sign, then one or more digits, denoting at most 255.
pub open spec fn parses_as_u8(s: Seq<u8>) -> bool {
    &&& unsigned_body(s).len() > 0
    &&& all_digits(unsigned_body(s))
    &&& digits_value(unsigned_body(s)) <= 255
}

/// The number a parsing segment denotes.
pub open spec fn u8_value(s: Seq<u8>) -> int {
    digits_value(unsigned_body(s))
}

/// The position of the first dot of `s` at or after `from`, or the
/// length of `s` when there is none.
pub open spec fn next_dot(s: Seq<u8>, from: int) -> int
    decreases s.len() - from,
{
    if from < 0 || from >= s.len() {
        s.len() as int
    } else if s[from] == DOT {
        from
    } else {
        next_dot(s, from + 1)
    }
}

/// Where dot-separated segment `n` of `s` starts.
pub open spec fn seg_start(s: Seq<u8>, n: int) -> int
    decreases n,
{
    if n <= 0 {
        0
    } else {
        next_dot(s, seg_start(s, n - 1)) + 1
    }
}

/// Where dot-separated segment `n` of `s` ends (exclusive).
pub open spec fn seg_end(s: Seq<u8>, n: int) -> int {
    next_dot(s, seg_start(s, n))
}

/// Whether splitting `s` on dots yields a segment `n` at all: segment 0
/// always exists, and each further segment needs a dot to close the one
/// before it.
pub open spec fn has_seg(s: Seq<u8>, n: int) -> bool
    decreases n,
{
    n <= 0 || (has_seg(s, n - 1) && seg_end(s, n - 1) < s.len())
}

/// Dot-separated segment `n` of `s`.
pub open spec fn seg(s: Seq<u8>, n: int) -> Seq<u8> {
    s.subrange(seg_start(s, n), seg_end(s, n))
}

/// Whether `s` opens with four dot-separated segments that each read as
/// an eight-bit number. Anything after the fourth segment is ignored,
/// exactly as reading four split pieces ignores the rest.
pub open spec fn parses_as_dotted_quad(s: Seq<u8>) -> bool {
    &&& has_seg(s, 3)
    &&& parses_as_u8(seg(s, 0))
    &&& parses_as_u8(seg(s, 1))
    &&& parses_as_u8(seg(s, 2))
    &&& parses_as_u8(seg(s, 3))
}

/// The network configuration as the configuration file spells it: the
/// advertised websocket host, the dotted-quad host to bind, and the
/// port.
pub struct ConfigJson {
    pub websocket_host: String,
    pub server_host: String,
    pub server_port: u16,
}

/// A digit string's value only grows as more digits are read.
proof fn lemma_digits_value_nonneg(s: Seq<u8>)
    requires
        all_digits(s),
    ensures
        digits_value(s) >= 0,
    decreases s.len(),
{
    if s.len() > 0 {
        assert(all_digits(s.drop_last())) by {
            assert(forall|i: int|
                0 <= i < s.len() - 1 ==> #[trigger] s.drop_last()[i] == s[i]);
        }
        lemma_digits_value_nonneg(s.drop_last());
    }
}

/// Reading one more digit multiplies the value read so far by ten and
/// adds the digit.
proof fn lemma_digits_value_take(s: Seq<u8>, j: int)
    requires
        0 <= j < s.len(),
    ensures
        digits_value(s.take(j + 1)) == digits_value(s.take(j)) * 10 + (s[j] - 48),
{
    assert(s.take(j + 1).drop_last() =~= s.take(j));
}

/// Skipping bytes known not to be dots does not move the next dot.
proof fn lemma_next_dot_skip(s: Seq<u8>, from: int, to: int)
    requires
        0 <= from <= to <= s.len(),
        forall|j: int| from <= j < to ==> s[j] != DOT,
    ensures
        next_dot(s, from) == next_dot(s, to),
    decreases to - from,
{
    if from < to {
        lemma_next_dot_skip(s, from + 1, to);
    }
}

/// The position of the first dot of `host` at or after `from`, or the
/// slice's length when there is none.
fn find_dot(host: &[u8], from: usize) -> (r: usize)
    requires
        from <= host@.len(),
    ensures
        r as int == next_dot(host@, from as int),
        from <= r <= host@.len(),
    decreases host@.len() - from,
{
    let mut i = from;
    while i < host.len()
        invariant
            from <= i <= host@.len(),
            forall|j: int| from <= j < i ==> host@[j] != DOT,
        decreases host@.len() - i,
    {
        if host[i] == DOT {
            proof {
                lemma_next_dot_skip(host@, from as int, i as int);
            }
            return i;
        }
        i = i + 1;
    }
    proof {
        lemma_next_dot_skip(host@, from as int, host@.len() as int);
    }
    host.len()
}

/// Reads one dot-separated segment as an eight-bit number: an optional
/// plus sign and then digits, as the standard unsigned parse does, and
/// nothing when the segment is empty, holds another byte, or denotes
/// more than 255.
pub fn parse_u8_segment(segment: &[u8]) -> (r: Option<u8>)
    ensures
        parses_as_u8(segment@) ==> (r matches Some(v) && v as int == u8_value(segment@)),
        !parses_as_u8(segment@) ==> r is None,
{
    let start: usize = if segment.len() > 0 && segment[0] == PLUS {
        1
    } else {
        0
    };
    let ghost body = unsigned_body(segment@);
    proof {
        assert(body =~= segment@.subrange(start as int, segment@.len() as int));
    }
    if start >= segment.len() {
        return None;
    }
    let mut value: u32 = 0;
    let mut i = start;
    assert(body.take(0) =~= Seq::<u8>::empty());
    while i < segment.len()
        invariant
            start <= i <= segment@.len(),
            start < segment@.len(),
            body == unsigned_body(segment@),
            body == segment@.subrange(start as int, segment@.len() as int),
            all_digits(body.take(i - start)),
            value as int == digits_value(body.take(i - start)),
            value <= 255,
        decreases segment@.len() - i,
    {
        let b = segment[i];
        proof {
            assert(body[i - start] == segment@[i as int]);
        }
        if b < 48 || b > 57 {
            assert(!is_ascii_digit(body[i - start]));
            return None;
        }
        proof {
            lemma_digits_value_take(body, i - start);
            assert(all_digits(body.take(i - start + 1))) by {
                assert(forall|j: int|
                    0 <= j < i - start ==> #[trigger] body.take(i - start + 1)[j] == body.take(
                        i - start,
                    )[j]);
            }
        }
        value = value * 10 + (b - 48) as u32;
        if value > 255 {
            // the value only grows with more digits, so the whole
            // segment denotes more than 255
            proof {
                lemma_digits_too_big(body, i - start + 1);
            }
            return None;
        }
        i = i + 1;
    }
    assert(body.take(body.len() as int) =~= body);
    Some(value as u8)
}

/// Once a digit prefix already denotes more than 255, no extension of
/// it parses as an eight-bit number.
proof fn lemma_digits_too_big(s: Seq<u8>, j: int)
    requires
        0 <= j <= s.len(),
        all_digits(s.take(j)),
        digits_value(s.take(j)) > 255,
    ensures
        !(all_digits(s) && digits_value(s) <= 255),
    decreases s.len() - j,
{
    if j == s.len() {
        assert(s.take(j) =~= s);
    } else if all_digits(s) {
        assert(is_ascii_digit(s[j]));
        lemma_digits_value_take(s, j);
        lemma_digits_value_nonneg(s.take(j));
        assert(digits_value(s.take(j + 1)) > 255);
        assert(all_digits(s.take(j + 1))) by {
            assert(forall|i: int| 0 <= i < j + 1 ==> #[trigger] s.take(j + 1)[i] == s[i]);
        }
        lemma_digits_too_big(s, j + 1);
    }
}

/// Reads the first four dot-separated segments of a host string as the
/// four numbers of a dotted-quad address, ignoring anything after them;
/// nothing when fewer than four segments exist or one of them does not
/// read as an eight-bit number.
pub fn parse_dotted_quad(host: &[u8]) -> (r: Option<(u8, u8, u8, u8)>)
    ensures
        parses_as_dotted_quad(host@) ==> (r matches Some(quad) && quad.0 as int == u8_value(
            seg(host@, 0),
        ) && quad.1 as int == u8_value(seg(host@, 1)) && quad.2 as int == u8_value(seg(host@, 2))
            && quad.3 as int == u8_value(seg(host@, 3))),
        !parses_as_dotted_quad(host@) ==> r is None,
{
    let e0 = find_dot(host, 0);
    if e0 >= host.len() {
        return None;
    }
    let s1 = e0 + 1;
    let e1 = find_dot(host, s1);
    if e1 >= host.len() {
        return None;
    }
    let s2 = e1 + 1;
    let e2 = find_dot(host, s2);
    if e2 >= host.len() {
        return None;
    }
    let s3 = e2 + 1;
    let e3 = find_dot(host, s3);

    proof {
        assert(seg_start(host@, 0) == 0);
        assert(seg_end(host@, 0) == e0 as int);
        assert(seg_start(host@, 1) == s1 as int);
        assert(seg_end(host@, 1) == e1 as int);
        assert(seg_start(host@, 2) == s2 as int);
        assert(seg_end(host@, 2) == e2 as int);
        assert(seg_start(host@, 3) == s3 as int);
        assert(seg_end(host@, 3) == e3 as int);
        assert(has_seg(host@, 0));
        assert(has_seg(host@, 1));
        assert(has_seg(host@, 2));
        assert(has_seg(host@, 3));
    }
    let sl0 = &host[0..e0];
    assert(sl0@ =~= seg(host@, 0));
    let a = match parse_u8_segment(sl0) {
        Some(v) => v,
        None => {
            return None;
        },
    };
    let sl1 = &host[s1..e1];
    assert(sl1@ =~= seg(host@, 1));
    let b = match parse_u8_segment(sl1) {
        Some(v) => v,
        None => {
            return None;
        },
    };
    let sl2 = &host[s2..e2];
    assert(sl2@ =~= seg(host@, 2));
    let c = match parse_u8_segment(sl2) {
        Some(v) => v,
        None => {
            return None;
        },
    };
    let sl3 = &host[s3..e3];
    assert(sl3@ =~= seg(host@, 3));
    let d = match parse_u8_segment(sl3) {
        Some(v) => v,
        None => {
            return None;
        },
    };
    Some((a, b, c, d))
}

} // verus!
