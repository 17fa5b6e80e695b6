//! What a browser terminal sends over the scene socket: a text message is
//! either a resize request (`__resize__:COLSxROWS`) or keystrokes.

use vstd::prelude::*;
use crate::launcher::{all_digits, digits_value, lemma_digits_value_grows, unsigned_body};

verus! {

/// Narrowest grid a resize request may ask for.
pub const MIN_SOCKET_COLS: usize = 20;
/// Shortest grid a resize request may ask for.
pub const MIN_SOCKET_ROWS: usize = 10;

/// What one text message from the browser asks for.
#[derive(Clone, Copy, Debug, PartialEq, Eq, Structural)]
pub enum SocketInput {
    /// Resize the scene to this grid (already raised to the minimum).
    Resize { cols: usize, rows: usize },
    /// Forward the message's bytes to the scene as keystrokes.
    Keys,
    /// A malformed resize request: nothing happens.
    Ignore,
}

/// The tag that opens a resize request.
pub open spec fn resize_tag() -> Seq<char> {
    seq!['_', '_', 'r', 'e', 's', 'i', 'z', 'e', '_', '_', ':']
}

/// What `str::parse::<usize>` gives: an optional `+` then one or more decimal
/// digits whose value fits in a `usize`.
pub open spec fn parse_usize_spec(s: Seq<char>) -> Option<usize> {
    let body = unsigned_body(s);
    if body.len() > 0 && all_digits(body) && digits_value(body) <= usize::MAX {
        Some(digits_value(body) as usize)
    } else {
        None
    }
}

/// `k` is the first position of `c` in `s`.
pub open spec fn first_at(s: Seq<char>, c: char, k: int) -> bool {
    &&& 0 <= k < s.len()
    &&& s[k] == c
    &&& forall|j: int| 0 <= j < k ==> s[j] != c
}

/// The larger of `v` and `lo`.
pub open spec fn at_least(v: usize, lo: usize) -> usize {
    if v < lo { lo } else { v }
}

/// `COLSxROWS`, split at the first `x`, both parts `usize` numbers.
pub open spec fn resize_dims(dims: Seq<char>) -> SocketInput {
    if exists|k: int| first_at(dims, 'x', k) {
        let k = choose|k: int| first_at(dims, 'x', k);
        match (parse_usize_spec(dims.take(k)), parse_usize_spec(dims.skip(k + 1))) {
            (Some(c), Some(r)) => SocketInput::Resize {
                cols: at_least(c, MIN_SOCKET_COLS),
                rows: at_least(r, MIN_SOCKET_ROWS),
            },
            _ => SocketInput::Ignore,
        }
    } else {
        SocketInput::Ignore
    }
}

/// What a text message asks for.
pub open spec fn socket_input_spec(text: Seq<char>) -> SocketInput {
    if text.len() >= resize_tag().len() && text.take(resize_tag().len() as int) == resize_tag() {
        resize_dims(text.skip(resize_tag().len() as int))
    } else {
        SocketInput::Keys
    }
}

/// The characters `lo..hi` of `chars` read as a `usize` the way
/// `str::parse::<usize>` reads them.
fn parse_usize_at(chars: &Vec<char>, lo: usize, hi: usize) -> (r: Option<usize>)
    requires
        lo <= hi <= chars@.len(),
    ensures
        r == parse_usize_spec(chars@.subrange(lo as int, hi as int)),
{
    let ghost s = chars@.subrange(lo as int, hi as int);
    if lo == hi {
        return None;
    }
    let start: usize = if chars[lo] == '+' { lo + 1 } else { lo };
    let ghost body = unsigned_body(s);
    proof {
        assert(body =~= chars@.subrange(start as int, hi as int));
    }
    if start == hi {
        return None;
    }
    proof {
        assert(body.take(0) =~= Seq::<char>::empty());
    }
    let mut v: usize = 0;
    let mut i: usize = start;
    while i < hi
        invariant
            lo <= start <= i <= hi <= chars@.len(),
            start < hi,
            s == chars@.subrange(lo as int, hi as int),
            body == unsigned_body(s),
            body == chars@.subrange(start as int, hi as int),
            all_digits(body.take(i - start)),
            v == digits_value(body.take(i - start)),
        decreases hi - i,
    {
        let c = chars[i];
        if c < '0' || c > '9' {
            proof {
                assert(body[i - start] == c);
                assert(!all_digits(body));
            }
            return None;
        }
        let d: usize = (c as u32 - '0' as u32) as usize;
        proof {
            assert(body.take(i - start + 1).drop_last() =~= body.take(i - start));
            assert(body.take(i - start + 1).last() == c);
            assert(d as int == c as int - '0' as int);
            assert(all_digits(body.take(i - start + 1)));
        }
        if v > (usize::MAX - d) / 10 {
            proof {
                assert(v * 10 + d > usize::MAX) by (nonlinear_arith)
                    requires
                        v > (usize::MAX - d) / 10,
                        d <= 9,
                ;
                if all_digits(body) {
                    lemma_digits_value_grows(body, i - start + 1);
                }
            }
            return None;
        }
        proof {
            assert(v * 10 + d <= usize::MAX) by (nonlinear_arith)
                requires
                    v <= (usize::MAX - d) / 10,
                    d <= 9,
            ;
        }
        v = v * 10 + d;
        i += 1;
    }
    proof {
        assert(body.take(hi - start) =~= body);
    }
    Some(v)
}

/// Reads one text message from the browser: `__resize__:COLSxROWS` with two
/// `usize` numbers asks for that grid, each side raised to its minimum; any
/// other resize request is ignored; every other message is keystrokes.
pub fn socket_input(text: &str) -> (r: SocketInput)
    ensures
        r == socket_input_spec(text@),
{
    let n = text.unicode_len();
    let mut chars: Vec<char> = Vec::new();
    let mut k: usize = 0;
    while k < n
        invariant
            n == text@.len(),
            k <= n,
            chars@ == text@.take(k as int),
        decreases n - k,
    {
        chars.push(text.get_char(k));
        proof {
            assert(text@.take(k + 1) =~= text@.take(k as int).push(text@[k as int]));
        }
        k += 1;
    }
    proof {
        assert(text@.take(n as int) =~= text@);
    }
    let tag: [char; 11] = ['_', '_', 'r', 'e', 's', 'i', 'z', 'e', '_', '_', ':'];
    proof {
        assert(tag@ =~= resize_tag());
    }
    if n < 11 {
        return SocketInput::Keys;
    }
    let mut t: usize = 0;
    while t < 11
        invariant
            chars@ == text@,
            n == text@.len(),
            n >= 11,
            tag@ == resize_tag(),
            t <= 11,
            forall|j: int| 0 <= j < t ==> chars@[j] == tag@[j],
        decreases 11 - t,
    {
        if chars[t] != tag[t] {
            proof {
                assert(text@.take(11)[t as int] != resize_tag()[t as int]);
            }
            return SocketInput::Keys;
        }
        t += 1;
    }
    proof {
        assert(text@.take(11) =~= resize_tag());
    }
    let ghost dims = text@.skip(11);
    let mut x: usize = 11;
    while x < n && chars[x] != 'x'
        invariant
            chars@ == text@,
            n == text@.len(),
            dims == text@.skip(11),
            11 <= x <= n,
            forall|j: int| 11 <= j < x ==> chars@[j] != 'x',
        decreases n - x,
    {
        x += 1;
    }
    if x == n {
        proof {
            assert forall|k: int| !first_at(dims, 'x', k) by {
                if first_at(dims, 'x', k) {
                    assert(chars@[k + 11] == 'x');
                }
            }
        }
        return SocketInput::Ignore;
    }
    proof {
        let k = (x - 11) as int;
        assert(first_at(dims, 'x', k));
        let kk = choose|kk: int| first_at(dims, 'x', kk);
        assert(kk == k) by {
            if kk < k {
                assert(dims[kk] != 'x');
            } else if kk > k {
                assert(dims[k] != 'x');
            }
        }
        assert(dims.take(k) =~= chars@.subrange(11, x as int));
        assert(dims.skip(k + 1) =~= chars@.subrange(x + 1, n as int));
    }
    let c = parse_usize_at(&chars, 11, x);
    let r = parse_usize_at(&chars, x + 1, n);
    match (c, r) {
        (Some(c), Some(r)) => SocketInput::Resize {
            cols: if c < MIN_SOCKET_COLS { MIN_SOCKET_COLS } else { c },
            rows: if r < MIN_SOCKET_ROWS { MIN_SOCKET_ROWS } else { r },
        },
        _ => SocketInput::Ignore,
    }
}

} // verus!
