//! Hosts that speak Ollama's protocol, and the context size that a model's
//! parameters give.

use crate::model::ModelError;
use crate::text::{bytes_at, bytes_match_at, trim_end, trim_end_ws, trim_start, trim_start_ws};
use vstd::prelude::*;
use vstd::string::StringSliceAdditionalSpecFns;
use vstd::utf8::*;

verus! {

broadcast use vstd::utf8::group_utf8_lib;

pub const DEFAULT_HOST: &'static str = "http://localhost:11434";

/// The context size of a model whose parameters do not set one.
pub const DEFAULT_CONTEXT: usize = 2048;

#[derive(Debug)]
pub struct OllamaHost {
    pub host: Option<String>,
}

impl OllamaHost {
    pub fn new(host: Option<String>) -> (r: Self)
        ensures
            r.host == host,
    {
        OllamaHost { host }
    }

    /// The host's address: the configured one, else the local default.
    pub fn host(&self) -> (r: &str)
        ensures
            r@ == match self.host {
                Some(h) => h@,
                None => DEFAULT_HOST@,
            },
    {
        match &self.host {
            Some(h) => h.as_str(),
            None => DEFAULT_HOST,
        }
    }
}

/// The end of the line that starts at byte `start`: the next newline, or the end.
pub open spec fn line_end(b: Seq<u8>, start: int) -> int
    decreases b.len() - start,
{
    if start >= b.len() || b[start] == 10 {
        start
    } else {
        line_end(b, start + 1)
    }
}

/// The first line from byte `start` on that starts with `key`, as its byte range.
pub open spec fn find_line(b: Seq<u8>, key: Seq<u8>, start: int) -> Option<(int, int)>
    decreases b.len() + 1 - start,
{
    if start < 0 || start > b.len() {
        None
    } else {
        let end = line_end(b, start);
        if bytes_at(b.subrange(start, end), key, 0) {
            Some((start, end))
        } else if end >= b.len() || end < start {
            None
        } else {
            find_line(b, key, end + 1)
        }
    }
}

/// The number that decimal digits stand for.
pub open spec fn decimal(d: Seq<u8>) -> nat
    decreases d.len(),
{
    if d.len() == 0 {
        0
    } else {
        decimal(d.drop_last()) * 10 + (d.last() - 48) as nat
    }
}

/// Whether every byte is an ASCII digit.
pub open spec fn all_digits(d: Seq<u8>) -> bool {
    forall|i: int| 0 <= i < d.len() ==> 48 <= #[trigger] d[i] <= 57
}

/// A `usize` written in decimal, with an optional `+` in front.
pub open spec fn parse_usize(s: Seq<u8>) -> Option<usize> {
    let d = if s.len() > 0 && s[0] == 43 {
        s.drop_first()
    } else {
        s
    };
    if d.len() > 0 && all_digits(d) && decimal(d) <= usize::MAX {
        Some(decimal(d) as usize)
    } else {
        None
    }
}

/// The context size that a model's parameters give: the number after
/// `num_ctx ` on the first line that starts with `num_ctx`, with the whitespace
/// round it trimmed; the default where no line does.
pub open spec fn context_size_spec(parameters: Seq<char>) -> Result<usize, ModelError> {
    let b = encode_utf8(parameters);
    match find_line(b, "num_ctx".spec_bytes(), 0) {
        None => Ok(DEFAULT_CONTEXT),
        Some((start, end)) => {
            if end < start + 8 || !is_char_boundary(b, start + 8) {
                Err(ModelError::Deserialize)
            } else {
                let value = trim_start_ws(trim_end_ws(decode_utf8(b.subrange(start + 8, end))));
                match parse_usize(encode_utf8(value)) {
                    Some(n) => Ok(n),
                    None => Err(ModelError::Deserialize),
                }
            }
        },
    }
}

/// Read a `usize` written in decimal, with an optional `+` in front.
pub fn parse_decimal(s: &[u8]) -> (r: Option<usize>)
    ensures
        r == parse_usize(s@),
{
    let n = s.len();
    let mut i: usize = 0;
    if n > 0 && s[0] == 43 {
        i = 1;
    }
    let first = i;
    let ghost d = if s@.len() > 0 && s@[0] == 43 {
        s@.drop_first()
    } else {
        s@
    };
    assert(d =~= s@.subrange(first as int, n as int));
    if first >= n {
        return None;
    }
    let mut acc: usize = 0;
    let mut over = false;
    while i < n
        invariant
            first <= i <= n,
            n == s@.len(),
            d == s@.subrange(first as int, n as int),
            d.len() > 0,
            parse_usize(s@) == (if all_digits(d) && decimal(d) <= usize::MAX {
                Some(decimal(d) as usize)
            } else {
                None
            }),
            all_digits(s@.subrange(first as int, i as int)),
            over ==> decimal(s@.subrange(first as int, i as int)) > usize::MAX,
            !over ==> acc == decimal(s@.subrange(first as int, i as int)),
        decreases n - i,
    {
        let c = s[i];
        if c < 48 || c > 57 {
            assert(d[i - first] == c);
            assert(!all_digits(d));
            return None;
        }
        let ghost prev = s@.subrange(first as int, i as int);
        let ghost next = s@.subrange(first as int, i + 1);
        assert(next.drop_last() =~= prev);
        assert(next.last() == c);
        assert(all_digits(next)) by {
            assert forall|k: int| 0 <= k < next.len() implies 48 <= #[trigger] next[k] <= 57 by {
                if k < prev.len() {
                    assert(next[k] == prev[k]);
                }
            }
        }
        let digit = (c - 48) as usize;
        if !over {
            if acc > (usize::MAX - digit) / 10 {
                over = true;
                assert(acc * 10 + digit > usize::MAX) by (nonlinear_arith)
                    requires
                        acc > (usize::MAX - digit) / 10,
                        digit <= 9,
                ;
            } else {
                assert(acc * 10 + digit <= usize::MAX) by (nonlinear_arith)
                    requires
                        acc <= (usize::MAX - digit) / 10,
                        digit <= 9,
                ;
                acc = acc * 10 + digit;
            }
        } else {
            assert(decimal(next) >= decimal(prev)) by (nonlinear_arith)
                requires
                    decimal(next) == decimal(prev) * 10 + digit,
            ;
        }
        i = i + 1;
    }
    assert(s@.subrange(first as int, n as int) == d);
    if over {
        None
    } else {
        Some(acc)
    }
}

/// The context size that a model's parameters give.
pub fn context_size_from_parameters(parameters: &str) -> (r: Result<usize, ModelError>)
    ensures
        r == context_size_spec(parameters@),
{
    let b = parameters.as_bytes();
    let key = "num_ctx".as_bytes();
    let ghost bs = b@;
    let n = b.len();
    let mut start: usize = 0;
    loop
        invariant
            bs == b@,
            bs == encode_utf8(parameters@),
            key@ == "num_ctx".spec_bytes(),
            n == bs.len(),
            start <= n,
            find_line(bs, key@, 0) == find_line(bs, key@, start as int),
        decreases n - start,
    {
        let mut end = start;
        while end < n && b[end] != 10
            invariant
                start <= end <= n,
                n == bs.len(),
                bs == b@,
                line_end(bs, start as int) == line_end(bs, end as int),
            decreases n - end,
        {
            end = end + 1;
        }
        assert(line_end(bs, end as int) == end);
        let found = bytes_match_at(b, key, start) && start + key.len() <= end;
        assert(found == bytes_at(bs.subrange(start as int, end as int), key@, 0)) by {
            if start + key@.len() <= end {
                assert(bs.subrange(start as int, end as int).subrange(0, key@.len() as int)
                    =~= bs.subrange(start as int, start + key@.len()));
            }
        }
        if found {
            if end - start < 8 || !parameters.is_char_boundary(start + 8) {
                return Err(ModelError::Deserialize);
            }
            proof {
                is_char_boundary_start_end_of_seq(bs);
                if end < n {
                    is_char_boundary_iff_not_is_continuation_byte(bs, end as int);
                }
            }
            let (_, rest) = parameters.split_at(start + 8);
            assert(rest.spec_bytes() =~= bs.subrange(start + 8, n as int));
            proof {
                if end < n {
                    is_char_boundary_iff_not_is_continuation_byte(rest.spec_bytes(), end - start - 8);
                } else {
                    is_char_boundary_start_end_of_seq(rest.spec_bytes());
                }
            }
            let (value, _) = rest.split_at(end - start - 8);
            assert(value.spec_bytes() =~= bs.subrange(start + 8, end as int));
            let trimmed = trim_start(trim_end(value));
            return match parse_decimal(trimmed.as_bytes()) {
                Some(v) => Ok(v),
                None => Err(ModelError::Deserialize),
            };
        }
        if end >= n {
            return Ok(DEFAULT_CONTEXT);
        }
        start = end + 1;
    }
}

} // verus!
