use std::collections::HashMap;

use promptbox::args::{ArgValue, TemplateArgs};
use promptbox::context::{
    enforce_context_limit, fit_rendered, input_context_limit, plan_context, truncate_at,
    ArrayTrimPriority, ContextOptions, ContextOptionsInput, ContextPlan, Enforced, OverflowKeep,
};
use promptbox::encoding::{Encoding, TextTokenizer};
use promptbox::error::Error;
use promptbox::openai::model_context_limit;
use promptbox::trim::{measure, trim_arg, trim_context_from_args, trim_measured, Measure};
use tokenizers::models::wordlevel::WordLevel;
use tokenizers::pre_tokenizers::whitespace::Whitespace;

const SAMPLE_TEXT_1: &str = "This is a test texting and it is full of sample text";
const SAMPLE_TEXT_2: &str = "Another test text too!";
const SAMPLE_TEXT_3: &str = "Testing testers test";

/// The spans of a Llama-style tokenization of the sample texts: 13, 5 and 5 tokens.
fn llama_spans(text: &str) -> Vec<(usize, usize)> {
    match text {
        SAMPLE_TEXT_1 => vec![
            (0, 4),
            (4, 7),
            (7, 9),
            (9, 14),
            (14, 19),
            (19, 22),
            (22, 26),
            (26, 29),
            (29, 32),
            (32, 37),
            (37, 40),
            (40, 47),
            (47, 52),
        ],
        SAMPLE_TEXT_2 => vec![(0, 7), (7, 12), (12, 17), (17, 21), (21, 22)],
        SAMPLE_TEXT_3 => vec![(0, 4), (4, 7), (7, 12), (12, 15), (15, 20)],
        _ => panic!("no spans for {text}"),
    }
}

fn llama_encoding(text: &str) -> Encoding {
    Encoding::from_offsets(text, llama_spans(text)).unwrap()
}

/// A tokenizer with one token per word and per run of punctuation.
fn word_tokenizer() -> TextTokenizer {
    let vocab = HashMap::from([("[UNK]".to_string(), 0u32)]);
    let model = WordLevel::builder()
        .vocab(vocab)
        .unk_token("[UNK]".to_string())
        .build()
        .unwrap();
    let mut inner = tokenizers::Tokenizer::new(model);
    inner.with_pre_tokenizer(Whitespace {});
    TextTokenizer::new(inner)
}

fn scalar(s: &str) -> ArgValue {
    ArgValue::Scalar(s.to_string())
}

fn samples() -> ArgValue {
    ArgValue::Array(vec![
        scalar(SAMPLE_TEXT_1),
        scalar(SAMPLE_TEXT_2),
        scalar(SAMPLE_TEXT_3),
    ])
}

fn sample_measure() -> Measure {
    Measure::Array(vec![
        Measure::Scalar(llama_encoding(SAMPLE_TEXT_1)),
        Measure::Scalar(llama_encoding(SAMPLE_TEXT_2)),
        Measure::Scalar(llama_encoding(SAMPLE_TEXT_3)),
    ])
}

fn strings(v: &ArgValue) -> Vec<String> {
    match v {
        ArgValue::Array(vs) => vs
            .iter()
            .map(|v| match v {
                ArgValue::Scalar(s) => s.clone(),
                other => panic!("not a string: {other:?}"),
            })
            .collect(),
        other => panic!("not a list: {other:?}"),
    }
}

fn options(priority: ArrayTrimPriority, trim_args: &[&str]) -> ContextOptions {
    ContextOptions {
        limit: None,
        keep: OverflowKeep::Start,
        trim_args: trim_args.iter().map(|s| s.to_string()).collect(),
        array_priority: priority,
        reserve_output: 0,
    }
}

#[test]
fn truncate_start() {
    let result = truncate_at(6, OverflowKeep::Start, SAMPLE_TEXT_1, &llama_encoding(SAMPLE_TEXT_1));
    assert_eq!(result, "This is a test texting");
}

#[test]
fn truncate_end() {
    let result = truncate_at(6, OverflowKeep::End, SAMPLE_TEXT_1, &llama_encoding(SAMPLE_TEXT_1));
    assert_eq!(result, "it is full of sample text");
}

#[test]
fn truncate_short_text_is_unchanged() {
    let enc = llama_encoding(SAMPLE_TEXT_2);
    assert_eq!(truncate_at(6, OverflowKeep::Start, SAMPLE_TEXT_2, &enc), SAMPLE_TEXT_2);
    assert_eq!(truncate_at(6, OverflowKeep::End, SAMPLE_TEXT_2, &enc), SAMPLE_TEXT_2);
}

#[test]
fn truncate_exact_length_still_trims_whitespace() {
    let text = "ab  ";
    let enc = Encoding::from_offsets(text, vec![(0, 2), (2, 4)]).unwrap();
    assert_eq!(truncate_at(2, OverflowKeep::Start, text, &enc), "ab");
}

#[test]
fn truncate_is_idempotent() {
    let once = truncate_at(6, OverflowKeep::Start, SAMPLE_TEXT_1, &llama_encoding(SAMPLE_TEXT_1));
    let again_enc = Encoding::from_offsets(
        once,
        vec![(0, 4), (4, 7), (7, 9), (9, 14), (14, 19), (19, 22)],
    )
    .unwrap();
    assert_eq!(truncate_at(6, OverflowKeep::Start, once, &again_enc), once);
}

#[test]
fn encoding_rejects_spans_that_do_not_fit() {
    assert!(Encoding::from_offsets("abc", vec![(0, 4)]).is_none());
    assert!(Encoding::from_offsets("abc", vec![(2, 3), (0, 1)]).is_none());
    assert!(Encoding::from_offsets("é", vec![(0, 1)]).is_none());
    assert!(Encoding::from_offsets("", vec![(0, 0)]).is_none());
    assert!(Encoding::from_offsets("é", vec![(0, 2)]).is_some());
}

#[test]
fn trim_array_value_first_multiple_values() {
    let (value, removed) = trim_measured(
        7,
        OverflowKeep::Start,
        ArrayTrimPriority::First,
        samples(),
        &sample_measure(),
    );
    assert_eq!(strings(&value), vec![SAMPLE_TEXT_1, "Another test text"]);
    assert_eq!(removed, 7);
}

#[test]
fn trim_array_value_first_single_value_exact() {
    let (value, removed) = trim_measured(
        5,
        OverflowKeep::Start,
        ArrayTrimPriority::First,
        samples(),
        &sample_measure(),
    );
    assert_eq!(strings(&value), vec![SAMPLE_TEXT_1, SAMPLE_TEXT_2]);
    assert_eq!(removed, 5);
}

#[test]
fn trim_array_value_first_single_value_partial() {
    let (value, removed) = trim_measured(
        2,
        OverflowKeep::Start,
        ArrayTrimPriority::First,
        samples(),
        &sample_measure(),
    );
    assert_eq!(
        strings(&value),
        vec![SAMPLE_TEXT_1, SAMPLE_TEXT_2, "Testing test"]
    );
    assert_eq!(removed, 2);
}

#[test]
fn trim_array_value_last() {
    let (value, removed) = trim_measured(
        7,
        OverflowKeep::Start,
        ArrayTrimPriority::Last,
        samples(),
        &sample_measure(),
    );
    assert_eq!(
        strings(&value),
        vec!["This is a test texting", SAMPLE_TEXT_2, SAMPLE_TEXT_3]
    );
    assert_eq!(removed, 7);
}

#[test]
fn trim_array_value_equal() {
    let (value, removed) = trim_measured(
        10,
        OverflowKeep::Start,
        ArrayTrimPriority::Equal,
        samples(),
        &sample_measure(),
    );
    assert_eq!(
        strings(&value),
        vec!["This is a test texting and", "Another test text", "Testing test"]
    );
    assert_eq!(removed, 10);
}

#[test]
fn trim_array_equal_rounding_can_overshoot() {
    // Word tokens: 12, 5 and 3. Shares of 10 out of 20 round to 6, 3 and 2.
    let tok = word_tokenizer();
    let mut value = samples();
    let removed = trim_arg(&tok, 10, &options(ArrayTrimPriority::Equal, &[]), &mut value).unwrap();
    assert_eq!(
        strings(&value),
        vec!["This is a test texting and", "Another test", "Testing"]
    );
    assert_eq!(removed, 11);
}

#[test]
fn trim_array_equal_exact_share_sums_to_request() {
    // Shares of 5 out of 20 round to 3, 1 and 1.
    let tok = word_tokenizer();
    let mut value = samples();
    let removed = trim_arg(&tok, 5, &options(ArrayTrimPriority::Equal, &[]), &mut value).unwrap();
    assert_eq!(
        strings(&value),
        vec![
            "This is a test texting and it is full",
            "Another test text too",
            "Testing testers"
        ]
    );
    assert_eq!(removed, 5);
}

#[test]
fn trim_array_keep_end_first_priority() {
    let mut opts = options(ArrayTrimPriority::First, &[]);
    opts.keep = OverflowKeep::End;
    let tok = word_tokenizer();
    let mut value = samples();
    let removed = trim_arg(&tok, 4, &opts, &mut value).unwrap();
    assert_eq!(strings(&value), vec![SAMPLE_TEXT_1, "test text too!"]);
    assert_eq!(removed, 4);
}

#[test]
fn trim_leaves_other_values_alone() {
    let tok = word_tokenizer();
    let mut value = ArgValue::Other("5".to_string());
    let removed = trim_arg(&tok, 3, &options(ArrayTrimPriority::First, &[]), &mut value).unwrap();
    assert_eq!(removed, 0);
    assert!(matches!(value, ArgValue::Other(s) if s == "5"));
}

#[test]
fn trim_zero_is_a_no_op() {
    let (value, removed) = trim_measured(
        0,
        OverflowKeep::Start,
        ArrayTrimPriority::First,
        ArrayValueWithEmpty::build(),
        &ArrayValueWithEmpty::measure(),
    );
    assert_eq!(removed, 0);
    assert_eq!(strings(&value), vec!["", "x"]);
}

struct ArrayValueWithEmpty;

impl ArrayValueWithEmpty {
    fn build() -> ArgValue {
        ArgValue::Array(vec![scalar(""), scalar("x")])
    }

    fn measure() -> Measure {
        Measure::Array(vec![
            Measure::Scalar(Encoding::from_offsets("", vec![]).unwrap()),
            Measure::Scalar(Encoding::from_offsets("x", vec![(0, 1)]).unwrap()),
        ])
    }
}

#[test]
fn trim_drops_empty_strings_from_lists() {
    let (value, removed) = trim_measured(
        1,
        OverflowKeep::Start,
        ArrayTrimPriority::Last,
        ArrayValueWithEmpty::build(),
        &ArrayValueWithEmpty::measure(),
    );
    assert_eq!(removed, 1);
    assert_eq!(strings(&value), Vec::<String>::new());
}

#[test]
fn measure_follows_the_value() {
    let tok = word_tokenizer();
    let m = measure(&tok, &samples()).unwrap();
    match m {
        Measure::Array(ms) => {
            assert_eq!(ms.len(), 3);
            match &ms[1] {
                Measure::Scalar(e) => assert_eq!(e.len(), 5),
                _ => panic!("expected an encoding"),
            }
        }
        _ => panic!("expected a list"),
    }
}

fn scalar_args() -> TemplateArgs {
    let mut args = TemplateArgs::new();
    args.insert("another_value".to_string(), ArgValue::Other("5".to_string()));
    args.insert("a_title".to_string(), scalar("The Wizard of Oz"));
    args.insert("test".to_string(), scalar(SAMPLE_TEXT_1));
    args.insert("zoos".to_string(), scalar("animals"));
    args
}

fn arg_string(args: &TemplateArgs, name: &str) -> String {
    match args.get(name) {
        Some(ArgValue::Scalar(s)) => s.clone(),
        other => panic!("{name}: {other:?}"),
    }
}

/// Trim a scalar value, and that only the value in trim_args gets trimmed.
#[test]
fn trim_scalar_value() {
    let tok = word_tokenizer();
    let mut args = scalar_args();
    trim_context_from_args(
        &tok,
        13,
        18,
        &options(ArrayTrimPriority::First, &["test"]),
        &mut args,
    )
    .unwrap();
    assert!(matches!(args.get("another_value"), Some(ArgValue::Other(s)) if s == "5"));
    assert_eq!(arg_string(&args, "a_title"), "The Wizard of Oz");
    assert_eq!(arg_string(&args, "test"), "This is a test texting and it");
    assert_eq!(arg_string(&args, "zoos"), "animals");
}

#[test]
fn distribute_walks_names_in_order_and_skips_missing() {
    let tok = word_tokenizer();
    let mut args = scalar_args();
    // 16 tokens to remove: "missing" is skipped, "zoos" goes whole (1), then
    // "test" loses the other 15, more than its 12: it goes whole too.
    trim_context_from_args(
        &tok,
        0,
        16,
        &options(ArrayTrimPriority::First, &["missing", "zoos", "test", "a_title"]),
        &mut args,
    )
    .unwrap();
    assert_eq!(arg_string(&args, "zoos"), "");
    assert_eq!(arg_string(&args, "test"), "");
    assert_eq!(arg_string(&args, "a_title"), "The");
}

#[test]
fn template_args_replace_in_place() {
    let mut args = TemplateArgs::new();
    args.insert("a".to_string(), scalar("1"));
    args.insert("b".to_string(), scalar("2"));
    args.insert("a".to_string(), scalar("3"));
    let names: Vec<&str> = args.entries().iter().map(|(n, _)| n.as_str()).collect();
    assert_eq!(names, vec!["a", "b"]);
    assert_eq!(arg_string(&args, "a"), "3");
    assert!(args.get("c").is_none());
}

#[test]
fn context_limit_values() {
    assert_eq!(input_context_limit(Some(16385), Some(10), 5), Ok(Some(5)));
    assert_eq!(input_context_limit(Some(16385), Some(10485760), 5), Ok(Some(16380)));
    assert_eq!(input_context_limit(Some(20), Some(20), 20), Err(Error::ContextLimit));
    assert_eq!(input_context_limit(Some(21), None, 20), Ok(Some(1)));
    assert_eq!(input_context_limit(None, Some(10), 5), Ok(None));
}

#[test]
fn options_from_input_defaults() {
    let opts = ContextOptions::from(ContextOptionsInput::default());
    assert_eq!(opts.reserve_output, 256);
    assert_eq!(opts.keep, OverflowKeep::Start);
    assert_eq!(opts.array_priority, ArrayTrimPriority::First);
    assert!(opts.trim_args.is_empty());
    let d = ContextOptions::default();
    assert_eq!(d.reserve_output, 256);
    assert_eq!(d.limit, None);
}

#[test]
fn merge_context_defaults() {
    let mut a = ContextOptionsInput {
        limit: Some(5),
        trim_args: vec!["x".to_string()],
        ..Default::default()
    };
    let b = ContextOptionsInput {
        limit: Some(9),
        keep: Some(OverflowKeep::End),
        trim_args: vec!["y".to_string()],
        ..Default::default()
    };
    a.merge_defaults(&b);
    assert_eq!(a.limit, Some(5));
    assert_eq!(a.keep, Some(OverflowKeep::End));
    assert_eq!(a.trim_args, vec!["y".to_string()]);
    a.merge_defaults(&ContextOptionsInput::default());
    assert_eq!(a.trim_args, vec!["y".to_string()]);
}

const TEST_TEMPLATE: &str = r##"
            This is a document to summarize titled {{title}}.

            {{extra}}

            The summary is:
            "##;

fn render(args: &TemplateArgs) -> String {
    let mut ctx = tera::Context::new();
    for (name, value) in args.entries() {
        match value {
            ArgValue::Scalar(s) => ctx.insert(name.as_str(), s),
            _ => panic!("only strings here"),
        }
    }
    tera::Tera::one_off(TEST_TEMPLATE, &ctx, false).unwrap()
}

fn blog_args() -> TemplateArgs {
    let mut args = TemplateArgs::new();
    args.insert("title".to_string(), scalar("My blog"));
    args.insert(
        "extra".to_string(),
        scalar("Some blog post with a lot of content to summarize"),
    );
    args
}

#[test]
fn below_limit() {
    let tok = word_tokenizer();
    let mut args = blog_args();
    let initial = render(&args);
    let mut opts = options(ArrayTrimPriority::First, &[]);
    opts.limit = Some(2048);
    let out = enforce_context_limit(&tok, Some(2048), &opts, &mut args, initial.clone()).unwrap();
    assert!(matches!(out, Enforced::Ready(s) if s == initial));
}

#[test]
fn end_to_end_trims_named_argument_and_rerenders() {
    // The rendering has 24 word tokens; a budget of 21 takes 3 off `extra`.
    let tok = word_tokenizer();
    let mut args = blog_args();
    let initial = render(&args);
    let opts = options(ArrayTrimPriority::First, &["extra"]);
    let out = enforce_context_limit(&tok, Some(21), &opts, &mut args, initial).unwrap();
    assert!(matches!(out, Enforced::Rerender));
    assert_eq!(arg_string(&args, "extra"), "Some blog post with a lot of");

    let mut expected = TemplateArgs::new();
    expected.insert("title".to_string(), scalar("My blog"));
    expected.insert("extra".to_string(), scalar("Some blog post with a lot of"));
    assert_eq!(render(&args), render(&expected));
}

#[test]
fn end_to_end_truncates_whole_text_without_trim_args() {
    let tok = word_tokenizer();
    let mut args = blog_args();
    let initial = render(&args);
    let mut opts = options(ArrayTrimPriority::First, &[]);
    opts.keep = OverflowKeep::End;
    let out = enforce_context_limit(&tok, Some(4), &opts, &mut args, initial).unwrap();
    assert!(matches!(out, Enforced::Ready(s) if s == "The summary is:\n            "));
}

#[test]
fn end_to_end_reports_no_room() {
    let tok = word_tokenizer();
    let mut args = blog_args();
    let mut opts = options(ArrayTrimPriority::First, &[]);
    opts.reserve_output = 100;
    let out = enforce_context_limit(&tok, Some(100), &opts, &mut args, "x".to_string());
    assert!(matches!(out, Err(Error::ContextLimit)));
}

#[test]
fn fit_rendered_decides() {
    let enc = llama_encoding(SAMPLE_TEXT_1);
    let opts = options(ArrayTrimPriority::First, &[]);
    assert_eq!(fit_rendered(13, &opts, SAMPLE_TEXT_1, &enc), Some(SAMPLE_TEXT_1.to_string()));
    assert_eq!(
        fit_rendered(6, &opts, SAMPLE_TEXT_1, &enc),
        Some("This is a test texting".to_string())
    );
    let opts = options(ArrayTrimPriority::First, &["x"]);
    assert_eq!(fit_rendered(6, &opts, SAMPLE_TEXT_1, &enc), None);
}

fn context_limit_for(limit: Option<usize>, reserve_output: usize) -> Result<Option<usize>, Error> {
    let model = model_context_limit("gpt-3.5-turbo-16k");
    input_context_limit(Some(model), limit, reserve_output)
}

#[test]
fn limit_smaller_than_model() {
    assert_eq!(context_limit_for(Some(10), 5).unwrap(), Some(5));
}

#[test]
fn limit_larger_than_model() {
    assert_eq!(context_limit_for(Some(10485760), 5).unwrap(), Some(16385 - 5));
}

#[test]
fn not_enough_reserved_output() {
    let err = context_limit_for(Some(20), 20).unwrap_err();
    assert!(matches!(err, Error::ContextLimit));
}

#[test]
fn trim_arg_zero_and_other_values_succeed_untouched() {
    let tok = word_tokenizer();
    let mut value = samples();
    assert_eq!(trim_arg(&tok, 0, &options(ArrayTrimPriority::First, &[]), &mut value), Ok(0));
    assert_eq!(strings(&value), vec![SAMPLE_TEXT_1, SAMPLE_TEXT_2, SAMPLE_TEXT_3]);
    let mut other = ArgValue::Other("true".to_string());
    assert_eq!(trim_arg(&tok, 4, &options(ArrayTrimPriority::First, &[]), &mut other), Ok(0));
}

#[test]
fn distribute_without_present_names_or_budget_changes_nothing() {
    let tok = word_tokenizer();
    let mut args = scalar_args();
    trim_context_from_args(&tok, 0, 16, &options(ArrayTrimPriority::First, &["nope"]), &mut args)
        .unwrap();
    assert_eq!(arg_string(&args, "test"), SAMPLE_TEXT_1);
    trim_context_from_args(&tok, 7, 7, &options(ArrayTrimPriority::First, &["test"]), &mut args)
        .unwrap();
    assert_eq!(arg_string(&args, "test"), SAMPLE_TEXT_1);
}

#[test]
fn plan_context_decides() {
    let enc = llama_encoding(SAMPLE_TEXT_1);
    let opts = options(ArrayTrimPriority::First, &["x"]);
    assert!(matches!(plan_context(6, &opts, SAMPLE_TEXT_1, &enc), ContextPlan::TrimArgs(7)));
    assert!(matches!(plan_context(13, &opts, SAMPLE_TEXT_1, &enc), ContextPlan::Ready(s) if s == SAMPLE_TEXT_1));
    let opts = options(ArrayTrimPriority::First, &[]);
    assert!(matches!(plan_context(6, &opts, SAMPLE_TEXT_1, &enc), ContextPlan::Ready(s) if s == "This is a test texting"));
}
