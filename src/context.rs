//! Context options, whole-text truncation, and the input budget of a model.

use crate::args::TemplateArgs;
use crate::encoding::{spans_fit, Encoding, TextTokenizer};
use crate::trim::{distributes_to, names_of, trim_context_from_args, Measure};
use crate::error::Error;
use crate::option::update_if_none;
use crate::text::{
    byte_prefix, byte_suffix, lemma_byte_range_round_trip, lemma_encode_concat, lemma_trim_end_prefix,
    lemma_trim_start_suffix, trim_end, trim_end_ws, trim_start, trim_start_ws,
};
use vstd::prelude::*;
use vstd::string::StringSliceAdditionalSpecFns;
use vstd::utf8::*;

verus! {

broadcast use vstd::utf8::group_utf8_lib;

/// Which side of the content to keep when some must go.
#[derive(Debug, Clone, Copy, PartialEq, Eq, Structural, Default)]
pub enum OverflowKeep {
    /// Keep the start of the content
    #[default]
    Start,
    /// Keep the end of the content
    End,
}

/// Control how array arguments are trimmed when reducing context overflow.
#[derive(Debug, Clone, Copy, PartialEq, Eq, Structural, Default)]
pub enum ArrayTrimPriority {
    /// Preserve the start of the array, when possible
    #[default]
    First,
    /// Preserve the end of the array, when possible
    Last,
    /// Trim an equal share off of each element.
    Equal,
}

/// The output reserve used when none is configured.
pub const DEFAULT_RESERVE_OUTPUT: usize = 256;

#[derive(Debug, Clone)]
pub struct ContextOptions {
    /// How much space in the context to reserve for the generated output.
    /// This count is subtracted from `limit` to calculate the prompt context limit.
    pub reserve_output: usize,
    /// Set a lower context size limit for a model.
    pub limit: Option<usize>,
    /// Which side of the context to keep when trimming.
    pub keep: OverflowKeep,
    /// Which arguments to drop content from when the context is too large.
    /// If empty, content will be removed from the entire rendered context.
    pub trim_args: Vec<String>,
    /// When trimming array arguments, whether to preserve the first elements,
    /// the last elements, or try to trim equally.
    pub array_priority: ArrayTrimPriority,
}

impl Default for ContextOptions {
    fn default() -> (r: Self)
        ensures
            r.reserve_output == DEFAULT_RESERVE_OUTPUT,
            r.limit is None,
            r.keep == OverflowKeep::Start,
            r.trim_args@.len() == 0,
            r.array_priority == ArrayTrimPriority::First,
    {
        ContextOptions {
            limit: None,
            keep: OverflowKeep::Start,
            trim_args: Vec::new(),
            array_priority: ArrayTrimPriority::First,
            reserve_output: DEFAULT_RESERVE_OUTPUT,
        }
    }
}

/// Context options as written in configuration, where each may be absent.
#[derive(Debug, Clone, Default)]
pub struct ContextOptionsInput {
    /// Set a lower context size limit for a model.
    pub limit: Option<usize>,
    /// How much space in the context to reserve for the generated output.
    pub reserve_output: Option<usize>,
    /// Which side of the context to keep when we have to drop some content
    pub keep: Option<OverflowKeep>,
    /// Which arguments to drop content from when the context is too large.
    /// If empty, content will be removed from the entire rendered context.
    pub trim_args: Vec<String>,
    /// When trimming array arguments, whether to trim from the first elements,
    /// the last elements, or try to trim equally.
    pub array_priority: Option<ArrayTrimPriority>,
}

/// The options that a configured input stands for, with defaults for what it leaves out.
pub open spec fn options_from_input(v: ContextOptionsInput) -> ContextOptions {
    ContextOptions {
        limit: v.limit,
        keep: match v.keep {
            Some(k) => k,
            None => OverflowKeep::Start,
        },
        trim_args: v.trim_args,
        array_priority: match v.array_priority {
            Some(p) => p,
            None => ArrayTrimPriority::First,
        },
        reserve_output: match v.reserve_output {
            Some(r) => r,
            None => DEFAULT_RESERVE_OUTPUT,
        },
    }
}

impl From<ContextOptionsInput> for ContextOptions {
    fn from(value: ContextOptionsInput) -> (r: Self)
        ensures
            r == options_from_input(value),
    {
        let keep = match value.keep {
            Some(k) => k,
            None => OverflowKeep::Start,
        };
        let array_priority = match value.array_priority {
            Some(p) => p,
            None => ArrayTrimPriority::First,
        };
        let reserve_output = match value.reserve_output {
            Some(r) => r,
            None => DEFAULT_RESERVE_OUTPUT,
        };
        ContextOptions {
            limit: value.limit,
            keep,
            trim_args: value.trim_args,
            array_priority,
            reserve_output,
        }
    }
}

impl vstd::std_specs::convert::FromSpecImpl<ContextOptionsInput> for ContextOptions {
    open spec fn obeys_from_spec() -> bool {
        true
    }

    open spec fn from_spec(v: ContextOptionsInput) -> ContextOptions {
        options_from_input(v)
    }
}

impl ContextOptionsInput {
    /// Fill each option that is absent here from `other`; a non-empty list of
    /// trim arguments in `other` replaces this one.
    pub fn merge_defaults(&mut self, other: &ContextOptionsInput)
        ensures
            final(self).limit == (if old(self).limit is None { other.limit } else { old(self).limit }),
            final(self).keep == (if old(self).keep is None { other.keep } else { old(self).keep }),
            final(self).array_priority == (if old(self).array_priority is None {
                other.array_priority
            } else {
                old(self).array_priority
            }),
            final(self).reserve_output == (if old(self).reserve_output is None {
                other.reserve_output
            } else {
                old(self).reserve_output
            }),
            final(self).trim_args@ == (if other.trim_args@.len() == 0 {
                old(self).trim_args@
            } else {
                other.trim_args@
            }),
    {
        update_if_none(&mut self.limit, &other.limit);
        update_if_none(&mut self.keep, &other.keep);
        update_if_none(&mut self.array_priority, &other.array_priority);
        update_if_none(&mut self.reserve_output, &other.reserve_output);

        if other.trim_args.len() > 0 {
            let args = other.trim_args.clone();
            assert(args@ =~= other.trim_args@);
            self.trim_args = args;
        }
    }
}

/// What remains of `text`, whose tokens have the byte spans `spans`, when at most
/// `limit` tokens may stay: the text itself when it has fewer than `limit` tokens;
/// otherwise, keeping the start, the text up to the end of token `limit - 1`
/// without trailing whitespace, and keeping the end, the text from the start of
/// the `limit`-th token from the end, without leading whitespace.
pub open spec fn truncated(
    limit: nat,
    keep: OverflowKeep,
    text: Seq<char>,
    spans: Seq<(usize, usize)>,
) -> Seq<char> {
    if spans.len() < limit {
        text
    } else {
        match keep {
            OverflowKeep::Start => trim_end_ws(byte_prefix(text, spans[limit - 1].1 as int)),
            OverflowKeep::End => trim_start_ws(byte_suffix(text, spans[spans.len() - limit].0 as int)),
        }
    }
}

/// Cut `input` down to at most `limit` of the tokens in `encoding`, keeping its
/// start or its end. The encoding is trusted to be that of `input`.
pub fn truncate_at<'a>(limit: usize, keep: OverflowKeep, input: &'a str, encoding: &Encoding) -> (r:
    &'a str)
    requires
        0 < limit,
        spans_fit(encoding.spans(), input@),
    ensures
        r@ == truncated(limit as nat, keep, input@, encoding.spans()),
{
    let n = encoding.len();
    if n < limit {
        return input;
    }
    let offsets = encoding.get_offsets();
    match keep {
        OverflowKeep::Start => {
            let end = offsets[limit - 1].1;
            assert(offsets@[limit - 1] == encoding.spans()[limit - 1]);
            let (head, _) = input.split_at(end);
            assert(encode_utf8(head@) == encode_utf8(input@).subrange(0, end as int));
            trim_end(head)
        },
        OverflowKeep::End => {
            let start = offsets[n - limit].0;
            assert(offsets@[n - limit] == encoding.spans()[n - limit]);
            let (_, tail) = input.split_at(start);
            assert(encode_utf8(tail@) == encode_utf8(input@).subrange(
                start as int,
                encode_utf8(input@).len() as int,
            ));
            trim_start(tail)
        },
    }
}

/// A text with fewer tokens than the limit is kept whole, whichever side is kept.
pub proof fn lemma_truncate_short_unchanged(
    limit: nat,
    keep: OverflowKeep,
    text: Seq<char>,
    spans: Seq<(usize, usize)>,
)
    requires
        spans_fit(spans, text),
        spans.len() < limit,
    ensures
        truncated(limit, keep, text, spans) == text,
{
}

/// Keeping the start gives a byte prefix of the text: its bytes are the text's
/// bytes up to the end of token `limit - 1`, less trailing whitespace.
pub proof fn lemma_truncate_start_is_prefix(limit: nat, text: Seq<char>, spans: Seq<(usize, usize)>)
    requires
        spans_fit(spans, text),
        0 < limit <= spans.len(),
    ensures
        ({
            let r = truncated(limit, OverflowKeep::Start, text, spans);
            let b = encode_utf8(text);
            &&& encode_utf8(r).len() <= spans[limit - 1].1
            &&& encode_utf8(r) == b.subrange(0, encode_utf8(r).len() as int)
        }),
{
    let end = spans[limit - 1].1 as int;
    let b = encode_utf8(text);
    assert(spans[limit - 1].0 <= spans[limit - 1].1 <= b.len());
    is_char_boundary_start_end_of_seq(b);
    lemma_byte_range_round_trip(text, 0, end);
    let p = byte_prefix(text, end);
    let r = trim_end_ws(p);
    lemma_trim_end_prefix(p);
    let rest = p.subrange(r.len() as int, p.len() as int);
    assert(p =~= r + rest);
    lemma_encode_concat(r, rest);
    assert(encode_utf8(r) =~= b.subrange(0, encode_utf8(r).len() as int));
}

/// Keeping the end gives a byte suffix of the text: its bytes are the text's
/// bytes from the start of the `limit`-th token from the end, less leading whitespace.
pub proof fn lemma_truncate_end_is_suffix(limit: nat, text: Seq<char>, spans: Seq<(usize, usize)>)
    requires
        spans_fit(spans, text),
        0 < limit <= spans.len(),
    ensures
        ({
            let r = truncated(limit, OverflowKeep::End, text, spans);
            let b = encode_utf8(text);
            &&& encode_utf8(r).len() <= b.len() - spans[spans.len() - limit].0
            &&& encode_utf8(r) == b.subrange(b.len() - encode_utf8(r).len(), b.len() as int)
        }),
{
    let start = spans[spans.len() - limit].0 as int;
    let b = encode_utf8(text);
    assert(spans[spans.len() - limit].0 <= spans[spans.len() - limit].1 <= b.len());
    is_char_boundary_start_end_of_seq(b);
    lemma_byte_range_round_trip(text, start, b.len() as int);
    let p = byte_suffix(text, start);
    let r = trim_start_ws(p);
    lemma_trim_start_suffix(p);
    let front = p.subrange(0, p.len() - r.len());
    assert(p =~= front + r);
    lemma_encode_concat(front, r);
    let ep = encode_utf8(p);
    let er = encode_utf8(r);
    assert(ep == b.subrange(start, b.len() as int));
    assert(er =~= ep.subrange(ep.len() - er.len(), ep.len() as int));
    assert(er =~= b.subrange(b.len() - er.len(), b.len() as int));
}

/// Whether the spans reach from the first byte of the text to its last.
pub open spec fn spans_cover(spans: Seq<(usize, usize)>, text: Seq<char>) -> bool {
    spans.len() > 0 ==> spans[0].0 == 0 && spans.last().1 == encode_utf8(text).len()
}

/// Truncating a truncated text again to the same limit changes nothing, given an
/// encoding of it that covers it and has at most `limit` tokens (and, where the
/// text was kept whole, the same encoding as before).
pub proof fn lemma_truncate_idempotent(
    limit: nat,
    keep: OverflowKeep,
    text: Seq<char>,
    spans: Seq<(usize, usize)>,
    again: Seq<(usize, usize)>,
)
    requires
        0 < limit,
        spans_fit(spans, text),
        spans_fit(again, truncated(limit, keep, text, spans)),
        spans_cover(again, truncated(limit, keep, text, spans)),
        again.len() <= limit,
        spans.len() < limit ==> again == spans,
    ensures
        truncated(limit, keep, truncated(limit, keep, text, spans), again) == truncated(
            limit,
            keep,
            text,
            spans,
        ),
{
    let out = truncated(limit, keep, text, spans);
    if again.len() == limit {
        let b = encode_utf8(out);
        assert(b.subrange(0, b.len() as int) =~= b);
        assert(again[0] == again[0]);
        assert(again[again.len() - 1] == again.last());
        match keep {
            OverflowKeep::Start => {
                if spans.len() >= limit {
                    lemma_trim_end_prefix(byte_prefix(text, spans[limit - 1].1 as int));
                }
                assert(byte_prefix(out, b.len() as int) == out);
            },
            OverflowKeep::End => {
                if spans.len() >= limit {
                    lemma_trim_start_suffix(byte_suffix(text, spans[spans.len() - limit].0 as int));
                }
                assert(byte_suffix(out, 0) == out);
            },
        }
    }
}

/// The tokens a prompt may use: the model's context size, lowered by a
/// configured limit, less the reserved output. `None` where the model's size is
/// unknown; `Error::ContextLimit` where the reserve leaves no room.
pub open spec fn input_limit_spec(model_limit: Option<usize>, limit: Option<usize>, reserve_output: usize) -> Result<
    Option<usize>,
    Error,
> {
    match model_limit {
        None => Ok(None),
        Some(m) => {
            let total = match limit {
                Some(l) => if l < m {
                    l
                } else {
                    m
                },
                None => m,
            };
            if total <= reserve_output {
                Err(Error::ContextLimit)
            } else {
                Ok(Some((total - reserve_output) as usize))
            }
        },
    }
}

/// The tokens a prompt may use: the model's context size, lowered by a
/// configured limit, less the reserved output. `None` where the model's size is
/// unknown; `Error::ContextLimit` where the reserve leaves no room.
pub fn input_context_limit(model_limit: Option<usize>, limit: Option<usize>, reserve_output: usize) -> (r:
    Result<Option<usize>, Error>)
    ensures
        r == input_limit_spec(model_limit, limit, reserve_output),
{
    let m = match model_limit {
        None => return Ok(None),
        Some(m) => m,
    };
    let total = match limit {
        Some(l) => if l < m { l } else { m },
        None => m,
    };
    if total <= reserve_output {
        Err(Error::ContextLimit)
    } else {
        Ok(Some(total - reserve_output))
    }
}

/// A rendered prompt that fits, or word that the trimmed arguments must be
/// rendered again.
#[derive(Debug)]
pub enum Enforced {
    Ready(String),
    Rerender,
}

/// What becomes of a rendered text with the token spans `spans` under the
/// budget `limit`: kept whole when it fits, truncated when no argument may be
/// trimmed, and `None` when the arguments must be trimmed and rendered again.
pub open spec fn fitted(
    limit: nat,
    keep: OverflowKeep,
    trim_args: Seq<String>,
    text: Seq<char>,
    spans: Seq<(usize, usize)>,
) -> Option<Seq<char>> {
    if spans.len() <= limit {
        Some(text)
    } else if trim_args.len() == 0 {
        Some(truncated(limit, keep, text, spans))
    } else {
        None
    }
}

/// Fit a rendered prompt, whose encoding is `encoding`, into `limit` tokens
/// where no re-rendering is needed.
pub fn fit_rendered(limit: usize, options: &ContextOptions, rendered: &str, encoding: &Encoding) -> (r:
    Option<String>)
    requires
        0 < limit,
        spans_fit(encoding.spans(), rendered@),
    ensures
        match r {
            Some(s) => fitted(limit as nat, options.keep, options.trim_args@, rendered@, encoding.spans())
                == Some(s@),
            None => fitted(limit as nat, options.keep, options.trim_args@, rendered@, encoding.spans())
                is None,
        },
{
    if encoding.len() <= limit {
        Some(rendered.to_owned())
    } else if options.trim_args.len() == 0 {
        Some(truncate_at(limit, options.keep, rendered, encoding).to_owned())
    } else {
        None
    }
}

/// The whole decision for a rendered prompt, given its encoding.
#[derive(Debug)]
pub enum ContextPlan {
    /// The prompt to send: the rendered text, whole or truncated.
    Ready(String),
    /// The named arguments must lose this many tokens, then be rendered again.
    TrimArgs(usize),
}

/// Decide what becomes of a rendered prompt, whose encoding is `encoding`,
/// under the budget `limit`: kept whole when it fits, truncated when no
/// argument may be trimmed, and otherwise the number of tokens that the named
/// arguments must lose.
pub fn plan_context(limit: usize, options: &ContextOptions, rendered: &str, encoding: &Encoding) -> (r:
    ContextPlan)
    requires
        0 < limit,
        spans_fit(encoding.spans(), rendered@),
    ensures
        match fitted(limit as nat, options.keep, options.trim_args@, rendered@, encoding.spans()) {
            Some(t) => r matches ContextPlan::Ready(s) && s@ == t,
            None => r == ContextPlan::TrimArgs((encoding.spans().len() - limit) as usize),
        },
{
    match fit_rendered(limit, options, rendered, encoding) {
        Some(s) => ContextPlan::Ready(s),
        None => ContextPlan::TrimArgs(encoding.len() - limit),
    }
}

/// Whether `result` is what some encoding of `text` makes of it under `limit`.
pub open spec fn fitted_to(limit: nat, options: ContextOptions, text: Seq<char>, result: Seq<char>) -> bool {
    exists|spans: Seq<(usize, usize)>|
        #[trigger] spans_fit(spans, text) && fitted(limit, options.keep, options.trim_args@, text, spans)
            == Some(result)
}

/// Whether `after` is what trimming the arguments `before` makes of them, for some
/// encoding of the rendered `text` that is over `limit`.
pub open spec fn trimmed_for(
    limit: nat,
    options: ContextOptions,
    text: Seq<char>,
    before: Seq<(Seq<char>, crate::args::ArgModel)>,
    after: Seq<(Seq<char>, crate::args::ArgModel)>,
) -> bool {
    exists|spans: Seq<(usize, usize)>|
        #[trigger] spans_fit(spans, text) && fitted(limit, options.keep, options.trim_args@, text, spans)
            is None && exists|ms: Seq<Measure>|
            #[trigger] distributes_to(
                (spans.len() - limit) as nat,
                options.keep,
                options.array_priority,
                names_of(options.trim_args@),
                before,
                ms,
                after,
            )
}

/// Hold a rendered prompt to the model's context size `model_context` (`None`
/// where it is unknown): the prompt as it is where it fits or no size is known,
/// truncated where no argument may be trimmed, or `Rerender` after trimming the
/// arguments named in the options, which must then be rendered again.
pub fn enforce_context_limit(
    tokenizer: &TextTokenizer,
    model_context: Option<usize>,
    options: &ContextOptions,
    args: &mut TemplateArgs,
    rendered: String,
) -> (r: Result<Enforced, Error>)
    requires
        old(args).wf(),
    ensures
        final(args).wf(),
        match input_limit_spec(model_context, options.limit, options.reserve_output) {
            Err(e) => r == Err::<Enforced, Error>(e) && final(args)@ == old(args)@,
            Ok(None) => final(args)@ == old(args)@ && match r {
                Ok(Enforced::Ready(s)) => s@ == rendered@,
                _ => false,
            },
            Ok(Some(limit)) => match r {
                Ok(Enforced::Ready(s)) => final(args)@ == old(args)@ && fitted_to(
                    limit as nat,
                    *options,
                    rendered@,
                    s@,
                ),
                Ok(Enforced::Rerender) => trimmed_for(
                    limit as nat,
                    *options,
                    rendered@,
                    old(args)@,
                    final(args)@,
                ),
                Err(e) => e is Tokenizer,
            },
        },
{
    let limit = match input_context_limit(model_context, options.limit, options.reserve_output) {
        Err(e) => return Err(e),
        Ok(None) => return Ok(Enforced::Ready(rendered)),
        Ok(Some(l)) => l,
    };
    let encoded = match tokenizer.encode(rendered.as_str()) {
        Ok(e) => e,
        Err(e) => return Err(e),
    };
    match plan_context(limit, options, rendered.as_str(), &encoded) {
        ContextPlan::Ready(s) => {
            assert(spans_fit(encoded.spans(), rendered@));
            Ok(Enforced::Ready(s))
        },
        ContextPlan::TrimArgs(_) => {
            match trim_context_from_args(tokenizer, limit, encoded.len(), options, args) {
                Ok(()) => {
                    assert(spans_fit(encoded.spans(), rendered@));
                    Ok(Enforced::Rerender)
                },
                Err(e) => Err(e),
            }
        },
    }
}

} // verus!
