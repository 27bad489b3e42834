//! Putting a prompt template together from its parts.

use vstd::prelude::*;
use vstd::string::StringExecFns;

verus! {

/// The type of a template option's value.
#[derive(Debug, Default, Clone, Copy, PartialEq, Eq, Structural)]
pub enum OptionType {
    #[default]
    String,
    Number,
    Integer,
    Bool,
    File,
}

/// A reference to `extra` in a template, with or without whitespace control.
pub const EXTRA_PATTERN: &'static str = r"\{\{-?\s*extra\s*-?\}\}";

/// Whether the regular expression `pattern` matches somewhere in `text`, or
/// `None` where `pattern` is not a valid expression.
pub uninterp spec fn regex_match_result(pattern: Seq<char>, text: Seq<char>) -> Option<bool>;

/// Relies on regex's `Regex::new` and `Regex::is_match`: whether the expression
/// matches anywhere in the text, or an error where it does not compile. The
/// result depends on the two strings alone.
#[verifier::external_body]
fn regex_is_match(pattern: &str, text: &str) -> (r: Option<bool>)
    ensures
        r == regex_match_result(pattern@, text@),
{
    match regex::Regex::new(pattern) {
        Ok(re) => Some(re.is_match(text)),
        Err(_) => None,
    }
}

/// Whether a template refers to `extra`.
pub open spec fn references_extra(template: Seq<char>) -> bool {
    regex_match_result(EXTRA_PATTERN@, template) == Some(true)
}

/// Whether the template refers to `extra`.
pub fn template_references_extra(template: &str) -> (r: bool)
    ensures
        r == references_extra(template@),
{
    match regex_is_match(EXTRA_PATTERN, template) {
        Some(found) => found,
        None => false,
    }
}

/// The parts, with `sep` between each two.
pub open spec fn joined(parts: Seq<Seq<char>>, sep: Seq<char>) -> Seq<char>
    decreases parts.len(),
{
    if parts.len() == 0 {
        Seq::empty()
    } else if parts.len() == 1 {
        parts[0]
    } else {
        joined(parts.drop_last(), sep) + sep + parts.last()
    }
}

/// The text of each string.
pub open spec fn texts(v: Seq<String>) -> Seq<Seq<char>> {
    Seq::new(v.len(), |i: int| v[i]@)
}

/// Join the parts with `sep` between each two.
pub fn join(parts: &Vec<String>, sep: &str) -> (r: String)
    ensures
        r@ == joined(texts(parts@), sep@),
{
    let n = parts.len();
    if n == 0 {
        return String::new();
    }
    let mut out = parts[0].clone();
    let mut i: usize = 1;
    assert(texts(parts@).subrange(0, 1).drop_last() =~= Seq::<Seq<char>>::empty());
    assert(joined(texts(parts@).subrange(0, 1), sep@) == texts(parts@)[0]);
    while i < n
        invariant
            1 <= i <= n,
            n == parts@.len(),
            out@ == joined(texts(parts@).subrange(0, i as int), sep@),
        decreases n - i,
    {
        out.append(sep);
        out.append(parts[i].as_str());
        assert(texts(parts@).subrange(0, i + 1).drop_last() =~= texts(parts@).subrange(0, i as int));
        i = i + 1;
    }
    assert(texts(parts@).subrange(0, n as int) =~= texts(parts@));
    out
}

/// A template put together, and the text to give it as `extra` where it refers to `extra`.
#[derive(Debug)]
pub struct AssembledTemplate {
    pub template: String,
    pub extra: Option<String>,
}

/// The blank line between parts.
pub const PARAGRAPH: &'static str = "\n\n";

/// `a`, a blank line, and `b`.
pub open spec fn paragraphs(a: Seq<char>, b: Seq<char>) -> Seq<char> {
    a + PARAGRAPH@ + b
}

/// The template after the extra text is placed: the template as it is, with
/// the extra text given as `extra`, where the template refers to `extra`; else
/// the extra text after a blank line, where there is some; then the appended
/// text after a blank line.
pub open spec fn extra_placed(
    template: Seq<char>,
    refers_extra: bool,
    extra: Seq<char>,
    append: Option<Seq<char>>,
) -> (Seq<char>, Option<Seq<char>>) {
    let (t2, ctx) = if refers_extra {
        (template, Some(extra))
    } else if extra.len() > 0 {
        (paragraphs(template, extra), None)
    } else {
        (template, None)
    };
    let t3 = match append {
        Some(a) => paragraphs(t2, a),
        None => t2,
    };
    (t3, ctx)
}

/// The template that `assemble_template` gives: the prepended text and a blank
/// line in front, then the extra inputs, joined by blank lines, placed as
/// `extra_placed` says.
pub open spec fn assembled(
    prepend: Option<Seq<char>>,
    initial: Seq<char>,
    extra: Seq<Seq<char>>,
    append: Option<Seq<char>>,
) -> (Seq<char>, Option<Seq<char>>) {
    let t1 = match prepend {
        Some(p) => paragraphs(p, initial),
        None => initial,
    };
    extra_placed(t1, references_extra(t1), joined(extra, PARAGRAPH@), append)
}

/// The text of an optional string.
pub open spec fn opt_text(s: Option<&str>) -> Option<Seq<char>> {
    match s {
        Some(t) => Some(t@),
        None => None,
    }
}

fn paragraphs_of(a: String, b: &str) -> (r: String)
    ensures
        r@ == paragraphs(a@, b@),
{
    let mut out = a;
    out.append(PARAGRAPH);
    out.append(b);
    out
}

/// Place the extra text in a template, given whether the template refers to
/// `extra`, and append the text to append.
pub fn place_extra(template: String, refers_extra: bool, extra_content: String, append: Option<&str>) -> (r:
    AssembledTemplate)
    ensures
        ({
            let (t, ctx) = extra_placed(template@, refers_extra, extra_content@, opt_text(append));
            &&& r.template@ == t
            &&& match ctx {
                Some(e) => r.extra matches Some(x) && x@ == e,
                None => r.extra is None,
            }
        }),
{
    let (template, ctx) = if refers_extra {
        (template, Some(extra_content))
    } else if !extra_content.as_str().is_empty() {
        (paragraphs_of(template, extra_content.as_str()), None)
    } else {
        (template, None)
    };
    let template = match append {
        Some(a) => paragraphs_of(template, a),
        None => template,
    };
    AssembledTemplate { template, extra: ctx }
}

/// Put a template together from the text to prepend, the template itself, the
/// extra inputs, and the text to append.
pub fn assemble_template(
    prepend: Option<&str>,
    initial_template: String,
    extra: &Vec<String>,
    append: Option<&str>,
) -> (r: AssembledTemplate)
    ensures
        ({
            let (t, ctx) = assembled(opt_text(prepend), initial_template@, texts(extra@), opt_text(append));
            &&& r.template@ == t
            &&& match ctx {
                Some(e) => r.extra matches Some(x) && x@ == e,
                None => r.extra is None,
            }
        }),
{
    let template = match prepend {
        Some(pre) => paragraphs_of(pre.to_owned(), initial_template.as_str()),
        None => initial_template,
    };
    let extra_content = join(extra, PARAGRAPH);
    let refers = template_references_extra(template.as_str());
    place_extra(template, refers, extra_content, append)
}

} // verus!
