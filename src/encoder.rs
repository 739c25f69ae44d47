//! The integer side of the encoder: tokenizing a text and shaping the token
//! ids into the inputs of the inference session (one batch of one sequence,
//! cut to the maximum length).
use vstd::prelude::*;

use crate::search::{contains, contains_chars};
use crate::text::chars_of;
use tokenizers::processors::template::TemplateProcessing;
use tokenizers::processors::PostProcessorWrapper;

verus! {

#[verifier::external_type_specification]
#[verifier::external_body]
pub struct ExTokenizer(tokenizers::Tokenizer);

/// Sequences are cut to this many tokens; later tokens are dropped.
pub const MAX_SEQ: usize = 128;

/// Why a text could not be encoded.
#[derive(Debug, PartialEq, Eq, Structural, Clone, Copy)]
pub enum EncodeError {
    /// The tokenizer refused the text, or gave an inconsistent encoding.
    TokenizationFailure,
}

/// A tokenized text: token ids, segment-type ids and attention mask.
#[derive(Debug, Clone)]
pub struct TokenEncoding {
    pub ids: Vec<u32>,
    pub type_ids: Vec<u32>,
    pub attention_mask: Vec<u32>,
}

/// The integer tensors handed to the session, each of `seq_len` items.
#[derive(Debug, Clone)]
pub struct ModelInputs {
    pub seq_len: usize,
    pub input_ids: Vec<i64>,
    pub attention_mask: Vec<i64>,
    /// Present exactly when the model declares a segment-type input.
    pub token_type_ids: Option<Vec<i64>>,
}

/// The first `n` items of `s`, widened to `i64`.
pub open spec fn widened(s: Seq<u32>, n: int) -> Seq<i64> {
    Seq::new(n as nat, |i: int| s[i] as i64)
}

/// The number of tokens kept of an encoding with `len` ids.
pub open spec fn kept_len(len: int) -> int {
    if len < MAX_SEQ {
        len
    } else {
        MAX_SEQ as int
    }
}

/// An encoding can be cut to the kept length: its mask, and its type ids
/// where they are needed, are at least that long.
pub open spec fn encoding_usable(enc: TokenEncoding, with_type_ids: bool) -> bool {
    let n = kept_len(enc.ids@.len() as int);
    enc.attention_mask@.len() >= n && (with_type_ids ==> enc.type_ids@.len() >= n)
}

/// The kind of post-processor a tokenizer applies after tokenizing.
#[derive(Debug, Clone, Copy, PartialEq, Eq, Structural)]
pub enum PostProcessorKind {
    /// No post-processor.
    Absent,
    /// BERT, RoBERTa or byte-level processing, which only add fixed special
    /// tokens or adjust offsets.
    Fixed,
    /// A template of special tokens and input sequences.
    Template,
    /// A chain of post-processors.
    Chain,
}

/// Marks, in the serialized single-sequence template, a piece that takes the
/// second sequence of a pair.
pub open spec fn pair_piece_mark() -> Seq<char> {
    "{\"Sequence\":{\"id\":\"B\""@
}

/// A post-processor that cannot fail hard on a single sequence: none or a
/// fixed one; or a template whose special tokens all exist
/// (`template_valid`) and whose single-sequence form (`single_template`,
/// serialized) takes no second sequence. A chain is not inspected and is
/// refused.
pub open spec fn post_processor_safe(
    kind: PostProcessorKind,
    template_valid: bool,
    single_template: Option<Seq<char>>,
) -> bool {
    match kind {
        PostProcessorKind::Absent | PostProcessorKind::Fixed => true,
        PostProcessorKind::Template => template_valid && match single_template {
            Some(j) => !contains(j, pair_piece_mark()),
            None => false,
        },
        PostProcessorKind::Chain => false,
    }
}

/// Whether a post-processor is accepted (see `post_processor_safe`).
pub fn accepts_post_processor(
    kind: PostProcessorKind,
    template_valid: bool,
    single_template: &Option<String>,
) -> (r: bool)
    ensures
        r == post_processor_safe(kind, template_valid, match single_template {
            Some(j) => Some(j@),
            None => None,
        }),
{
    match kind {
        PostProcessorKind::Absent | PostProcessorKind::Fixed => true,
        PostProcessorKind::Template => {
            if !template_valid {
                return false;
            }
            match single_template {
                Some(j) => {
                    let mark = chars_of("{\"Sequence\":{\"id\":\"B\"");
                    !contains_chars(&chars_of(j.as_str()), &mark)
                },
                None => false,
            }
        },
        PostProcessorKind::Chain => false,
    }
}

/// Relies on `Tokenizer::get_post_processor` and on telling the variants of
/// `PostProcessorWrapper` apart.
#[verifier::external_body]
fn post_processor_kind(t: &tokenizers::Tokenizer) -> PostProcessorKind {
    match t.get_post_processor() {
        None => PostProcessorKind::Absent,
        Some(PostProcessorWrapper::Roberta(_)) => PostProcessorKind::Fixed,
        Some(PostProcessorWrapper::Bert(_)) => PostProcessorKind::Fixed,
        Some(PostProcessorWrapper::ByteLevel(_)) => PostProcessorKind::Fixed,
        Some(PostProcessorWrapper::Template(_)) => PostProcessorKind::Template,
        Some(PostProcessorWrapper::Sequence(_)) => PostProcessorKind::Chain,
    }
}

/// Relies on `TemplateProcessingBuilder::build`, whose validation
/// (processors/template.rs, `validate`) fails when a template names a special
/// token missing from the special-token map: the template is rebuilt from
/// its single and pair templates and its special tokens. `false` for any
/// other post-processor.
#[verifier::external_body]
fn template_valid(t: &tokenizers::Tokenizer) -> bool {
    match t.get_post_processor() {
        Some(PostProcessorWrapper::Template(p)) => TemplateProcessing::builder()
            .single(p.single.clone())
            .pair(p.get_pair().clone())
            .special_tokens(p.get_special_tokens().clone())
            .build()
            .is_ok(),
        _ => false,
    }
}

/// Relies on `serde_json::to_string` of the template's `single` field: each
/// piece serializes as its derived form, a piece taking the second sequence
/// as `{"Sequence":{"id":"B",...}}`. `None` for any other post-processor or
/// when serializing fails.
#[verifier::external_body]
fn single_template(t: &tokenizers::Tokenizer) -> Option<String> {
    match t.get_post_processor() {
        Some(PostProcessorWrapper::Template(p)) => serde_json::to_string(&p.single).ok(),
        _ => None,
    }
}

/// A tokenizer whose `encode` cannot fail hard on one sequence: it has no
/// truncation settings of its own (sequences are cut by `model_inputs`), and
/// its post-processor passed `post_processor_safe`. Only `TextTokenizer::new`
/// makes one.
pub struct TextTokenizer {
    inner: tokenizers::Tokenizer,
}

/// Relies on `tokenizers::Tokenizer::with_truncation(None)`, which clears the
/// tokenizer's truncation settings without any check or arithmetic (and so
/// without failing) when given `None`.
#[verifier::external_body]
fn without_truncation(tokenizer: tokenizers::Tokenizer) -> tokenizers::Tokenizer {
    let mut t = tokenizer;
    let _ = t.with_truncation(None);
    t
}

impl TextTokenizer {
    /// Takes a loaded tokenizer, refusing one whose post-processor could make
    /// encoding fail hard (a template naming an undeclared special token, or
    /// taking a second sequence for a single one; a chain), and drops its own
    /// truncation settings, whose unchecked values could do the same.
    pub fn new(tokenizer: tokenizers::Tokenizer) -> Option<TextTokenizer> {
        let kind = post_processor_kind(&tokenizer);
        let valid = template_valid(&tokenizer);
        let single = single_template(&tokenizer);
        if !accepts_post_processor(kind, valid, &single) {
            return None;
        }
        Some(TextTokenizer { inner: without_truncation(tokenizer) })
    }
}

/// Relies on `tokenizers::Tokenizer::encode` (with special tokens added) and
/// on the `get_ids`, `get_type_ids` and `get_attention_mask` of the
/// `Encoding` it returns (`None` when it fails); nothing is assumed of their
/// contents or lengths. `encode` could panic on truncation settings (a
/// stride not below the maximum length, encoding.rs `truncate`) and on a
/// template naming a missing special token or taking a second sequence for a
/// single one (template.rs `apply_template`); a `TextTokenizer` has none of
/// these.
#[verifier::external_body]
fn tokenize(tokenizer: &TextTokenizer, text: &str) -> Option<TokenEncoding> {
    match tokenizer.inner.encode(text, true) {
        Ok(enc) => Some(
            TokenEncoding {
                ids: enc.get_ids().to_vec(),
                type_ids: enc.get_type_ids().to_vec(),
                attention_mask: enc.get_attention_mask().to_vec(),
            },
        ),
        Err(_) => None,
    }
}

fn widen_prefix(s: &Vec<u32>, n: usize) -> (r: Vec<i64>)
    requires
        n <= s.len(),
    ensures
        r@ == widened(s@, n as int),
{
    let mut r: Vec<i64> = Vec::new();
    for i in 0..n
        invariant
            n <= s.len(),
            r@ == widened(s@, i as int),
    {
        r.push(s[i] as i64);
        assert(r@ =~= widened(s@, i + 1));
    }
    r
}

/// Shapes an encoding into session inputs: ids, mask and (when the model
/// wants them) type ids, all cut to the first `MAX_SEQ` tokens. An encoding
/// whose mask or type ids are shorter than that is refused.
pub fn model_inputs(enc: &TokenEncoding, with_type_ids: bool) -> (r: Result<ModelInputs, EncodeError>)
    ensures
        r is Ok <==> encoding_usable(*enc, with_type_ids),
        r is Err ==> r == Err::<ModelInputs, EncodeError>(EncodeError::TokenizationFailure),
        r matches Ok(m) ==> {
            let n = kept_len(enc.ids@.len() as int);
            &&& m.seq_len == n
            &&& m.input_ids@ == widened(enc.ids@, n)
            &&& m.attention_mask@ == widened(enc.attention_mask@, n)
            &&& match m.token_type_ids {
                Some(t) => with_type_ids && t@ == widened(enc.type_ids@, n),
                None => !with_type_ids,
            }
        },
{
    let n = if enc.ids.len() < MAX_SEQ {
        enc.ids.len()
    } else {
        MAX_SEQ
    };
    if enc.attention_mask.len() < n || (with_type_ids && enc.type_ids.len() < n) {
        return Err(EncodeError::TokenizationFailure);
    }
    let input_ids = widen_prefix(&enc.ids, n);
    let attention_mask = widen_prefix(&enc.attention_mask, n);
    let token_type_ids = if with_type_ids {
        Some(widen_prefix(&enc.type_ids, n))
    } else {
        None
    };
    Ok(ModelInputs { seq_len: n, input_ids, attention_mask, token_type_ids })
}

/// Tokenizes `text` and shapes the session inputs. Whatever the tokenizer
/// returns, the inputs are consistent: at most `MAX_SEQ` tokens, the same
/// count in each tensor, and type ids exactly when asked for.
pub fn encode_inputs(tokenizer: &TextTokenizer, text: &str, with_type_ids: bool) -> (r:
    Result<ModelInputs, EncodeError>)
    ensures
        r is Err ==> r == Err::<ModelInputs, EncodeError>(EncodeError::TokenizationFailure),
        r matches Ok(m) ==> {
            &&& m.seq_len <= MAX_SEQ
            &&& m.input_ids@.len() == m.seq_len
            &&& m.attention_mask@.len() == m.seq_len
            &&& match m.token_type_ids {
                Some(t) => with_type_ids && t@.len() == m.seq_len,
                None => !with_type_ids,
            }
        },
{
    match tokenize(tokenizer, text) {
        Some(enc) => model_inputs(&enc, with_type_ids),
        None => Err(EncodeError::TokenizationFailure),
    }
}

/// Whether a model with these declared input names takes segment-type ids
/// (an input named "token_type_ids").
pub fn needs_type_ids(input_names: &Vec<String>) -> (r: bool)
    ensures
        r == exists|i: int| 0 <= i < input_names.len() && (#[trigger] input_names[i])@ == "token_type_ids"@,
{
    let target = String::from_str("token_type_ids");
    for i in 0..input_names.len()
        invariant
            target@ == "token_type_ids"@,
            forall|j: int| 0 <= j < i ==> (#[trigger] input_names[j])@ != "token_type_ids"@,
    {
        if input_names[i] == target {
            return true;
        }
    }
    false
}

} // verus!
