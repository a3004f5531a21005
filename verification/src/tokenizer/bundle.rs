//! The tokenizer type and the calls that the server makes on it.
use vstd::prelude::*;
use vstd::string::*;

use crate::text::u32_of;

verus! {

/// `tokenizers::TokenizerImpl`, opaque.
#[verifier::external_type_specification]
#[verifier::external_body]
#[verifier::reject_recursive_types(M)]
#[verifier::reject_recursive_types(N)]
#[verifier::reject_recursive_types(PT)]
#[verifier::reject_recursive_types(PP)]
#[verifier::reject_recursive_types(D)]
pub struct ExTokenizerImpl<M, N, PT, PP, D>(tokenizers::TokenizerImpl<M, N, PT, PP, D>);

/// `tokenizers::models::ModelWrapper`, opaque.
#[verifier::external_type_specification]
#[verifier::external_body]
pub struct ExModelWrapper(tokenizers::models::ModelWrapper);

/// `tokenizers::normalizers::NormalizerWrapper`, opaque.
#[verifier::external_type_specification]
#[verifier::external_body]
pub struct ExNormalizerWrapper(tokenizers::normalizers::NormalizerWrapper);

/// `tokenizers::pre_tokenizers::PreTokenizerWrapper`, opaque.
#[verifier::external_type_specification]
#[verifier::external_body]
pub struct ExPreTokenizerWrapper(tokenizers::pre_tokenizers::PreTokenizerWrapper);

/// `tokenizers::processors::PostProcessorWrapper`, opaque.
#[verifier::external_type_specification]
#[verifier::external_body]
pub struct ExPostProcessorWrapper(tokenizers::processors::PostProcessorWrapper);

/// `tokenizers::decoders::DecoderWrapper`, opaque.
#[verifier::external_type_specification]
#[verifier::external_body]
pub struct ExDecoderWrapper(tokenizers::decoders::DecoderWrapper);

/// The concrete tokenizer: every stage of the pipeline behind its wrapper enum.
pub type Tokenizer = tokenizers::TokenizerImpl<
    tokenizers::models::ModelWrapper,
    tokenizers::normalizers::NormalizerWrapper,
    tokenizers::pre_tokenizers::PreTokenizerWrapper,
    tokenizers::processors::PostProcessorWrapper,
    tokenizers::decoders::DecoderWrapper,
>;

/// One stage that splits text before the model and joins it again after.
#[derive(Clone, Copy, PartialEq, Eq, Structural, Debug)]
pub enum Stage {
    /// Byte-level stage: text is mapped byte by byte onto printable characters.
    ByteLevel { add_prefix_space: bool, trim_offsets: bool, use_regex: bool },
    /// Spaces are written as `replacement`.
    Metaspace { replacement: char, prepend: Prepend, split: bool },
}

/// Whether a metaspace stage puts a replacement before the text.
#[derive(Clone, Copy, PartialEq, Eq, Structural, Debug)]
pub enum Prepend {
    Always,
    Never,
}

/// What a model was built from.
pub enum ModelParts {
    /// Byte-pair model: the id of each token, the rank of each merge.
    Bpe {
        vocab: Map<Seq<char>, u32>,
        merges: Map<(Seq<char>, Seq<char>), u32>,
        byte_fallback: bool,
    },
    /// Unigram model: token texts by id.
    Unigram { vocab: Seq<Seq<char>>, unk_id: Option<usize>, byte_fallback: bool },
}

/// What a tokenizer was assembled from: the model, the stages around it, the
/// texts of the special tokens and of the other tokens that are registered on
/// top of its vocabulary, each in the order of registration, whether they are
/// looked for in the normalized text, and the template that puts special tokens
/// round an encoded text.
pub struct Pipeline {
    pub model: ModelParts,
    pub pre: Option<Stage>,
    pub decoder: Option<Stage>,
    pub specials: Seq<Seq<char>>,
    pub plain: Seq<Seq<char>>,
    pub normalized: Option<bool>,
    pub template: Option<(Seq<char>, Seq<(Seq<char>, u32)>)>,
}

/// A tokenizer with nothing round its model.
pub open spec fn bare(model: ModelParts) -> Pipeline {
    Pipeline {
        model,
        pre: None,
        decoder: None,
        specials: seq![],
        plain: seq![],
        normalized: None,
        template: None,
    }
}

/// No token is registered on top of the vocabulary.
pub open spec fn none_registered(p: Pipeline) -> bool {
    p.specials.len() == 0 && p.plain.len() == 0
}

/// The texts of the special tokens among `tokens`, each once, in order.
pub open spec fn special_texts(tokens: Seq<(Seq<char>, bool)>) -> Seq<Seq<char>>
    decreases tokens.len(),
{
    if tokens.len() == 0 {
        seq![]
    } else {
        let rest = special_texts(tokens.drop_last());
        let (text, special) = tokens.last();
        if special && text.len() > 0 && !rest.contains(text) {
            rest.push(text)
        } else {
            rest
        }
    }
}

/// The texts of the other tokens among `tokens`, each once, in order; one that is
/// also a special token is none of them.
pub open spec fn plain_texts(
    tokens: Seq<(Seq<char>, bool)>,
    specials: Seq<Seq<char>>,
) -> Seq<Seq<char>>
    decreases tokens.len(),
{
    if tokens.len() == 0 {
        seq![]
    } else {
        let rest = plain_texts(tokens.drop_last(), specials);
        let (text, special) = tokens.last();
        if !special && text.len() > 0 && !specials.contains(text) && !rest.contains(text) {
            rest.push(text)
        } else {
            rest
        }
    }
}

/// What a model was built from.
pub uninterp spec fn model_parts(model: &tokenizers::models::ModelWrapper) -> ModelParts;

/// What a tokenizer was assembled from.
pub uninterp spec fn pipeline(tokenizer: &Tokenizer) -> Pipeline;

/// The views of a list of tokens.
pub open spec fn views(tokens: Seq<String>) -> Seq<Seq<char>> {
    tokens.map_values(|t: String| t@)
}

/// The views of a list of string pairs.
pub open spec fn pair_views(pairs: Seq<(String, String)>) -> Seq<(Seq<char>, Seq<char>)> {
    pairs.map_values(|p: (String, String)| (p.0@, p.1@))
}

/// The views of tokens to register.
pub open spec fn added_views(tokens: Seq<(String, bool)>) -> Seq<(Seq<char>, bool)> {
    tokens.map_values(|p: (String, bool)| (p.0@, p.1))
}

/// The views of tokens with their ids.
pub open spec fn id_views(tokens: Seq<(String, u32)>) -> Seq<(Seq<char>, u32)> {
    tokens.map_values(|p: (String, u32)| (p.0@, p.1))
}

/// The map that lists pairs one by one: a later pair replaces an earlier one with
/// the same text.
pub open spec fn mapped(pairs: Seq<(Seq<char>, u32)>) -> Map<Seq<char>, u32>
    decreases pairs.len(),
{
    if pairs.len() == 0 {
        Map::empty()
    } else {
        mapped(pairs.drop_last()).insert(pairs.last().0, pairs.last().1)
    }
}

/// The rank of each merge: its index, that of the last among equal ones.
pub open spec fn ranked(merges: Seq<(Seq<char>, Seq<char>)>) -> Map<(Seq<char>, Seq<char>), u32>
    decreases merges.len(),
{
    if merges.len() == 0 {
        Map::empty()
    } else {
        ranked(merges.drop_last()).insert(merges.last(), (merges.len() - 1) as u32)
    }
}

/// Both halves of a merge, and the token that it makes, are in the vocabulary.
pub open spec fn merge_known(vocab: Map<Seq<char>, u32>, merge: (Seq<char>, Seq<char>)) -> bool {
    vocab.contains_key(merge.0) && vocab.contains_key(merge.1) && vocab.contains_key(
        merge.0 + merge.1,
    )
}

/// `tokenizers::models::bpe::BpeBuilder::build`, with a vocabulary and merges,
/// whose index is their rank. It fails, with some message, exactly where a merge
/// names a token outside the vocabulary; the model is otherwise the byte-pair
/// model of these parts.
#[verifier::external_body]
pub(crate) fn bpe_model(
    vocab: Vec<(String, u32)>,
    merges: Vec<(String, String)>,
    byte_fallback: bool,
) -> (r: Result<tokenizers::models::ModelWrapper, String>)
    ensures
        r is Ok <==> forall|i: int|
            0 <= i < merges@.len() ==> merge_known(
                mapped(id_views(vocab@)),
                #[trigger] pair_views(merges@)[i],
            ),
        r matches Ok(model) ==> model_parts(&model) == (ModelParts::Bpe {
            vocab: mapped(id_views(vocab@)),
            merges: ranked(pair_views(merges@)),
            byte_fallback,
        }),
{
    let vocab: tokenizers::models::bpe::Vocab = vocab.into_iter().collect();
    tokenizers::models::bpe::BPE::builder().vocab_and_merges(vocab, merges).byte_fallback(
        byte_fallback,
    ).build().map(tokenizers::models::ModelWrapper::BPE).map_err(|e| e.to_string())
}

/// `tokenizers::TokenizerImpl::new`: the model with nothing round it.
#[verifier::external_body]
pub(crate) fn new_tokenizer(model: tokenizers::models::ModelWrapper) -> (r: Tokenizer)
    ensures
        pipeline(&r) == bare(model_parts(&model)),
{
    Tokenizer::new(model)
}

/// The stage that a pre-tokenizer is.
pub uninterp spec fn pre_stage(pre: &tokenizers::pre_tokenizers::PreTokenizerWrapper) -> Stage;

/// The stage that a decoder is.
pub uninterp spec fn decoder_stage(decoder: &tokenizers::decoders::DecoderWrapper) -> Stage;

/// `tokenizers::pre_tokenizers::byte_level::ByteLevel::new`: the stage with these
/// settings, as a pre-tokenizer and as a decoder.
#[verifier::external_body]
fn byte_level_stage(add_prefix_space: bool, trim_offsets: bool, use_regex: bool) -> (r: (
    tokenizers::pre_tokenizers::PreTokenizerWrapper,
    tokenizers::decoders::DecoderWrapper,
))
    ensures
        pre_stage(&r.0) == (Stage::ByteLevel { add_prefix_space, trim_offsets, use_regex }),
        decoder_stage(&r.1) == (Stage::ByteLevel { add_prefix_space, trim_offsets, use_regex }),
{
    let stage = tokenizers::pre_tokenizers::byte_level::ByteLevel::new(
        add_prefix_space,
        trim_offsets,
        use_regex,
    );
    (
        tokenizers::pre_tokenizers::PreTokenizerWrapper::ByteLevel(stage),
        tokenizers::decoders::DecoderWrapper::ByteLevel(stage),
    )
}

/// `tokenizers::pre_tokenizers::metaspace::Metaspace::new`: the stage with these
/// settings, as a pre-tokenizer and as a decoder.
#[verifier::external_body]
fn metaspace_stage(replacement: char, prepend: Prepend, split: bool) -> (r: (
    tokenizers::pre_tokenizers::PreTokenizerWrapper,
    tokenizers::decoders::DecoderWrapper,
))
    ensures
        pre_stage(&r.0) == (Stage::Metaspace { replacement, prepend, split }),
        decoder_stage(&r.1) == (Stage::Metaspace { replacement, prepend, split }),
{
    let scheme = match prepend {
        Prepend::Always => tokenizers::pre_tokenizers::metaspace::PrependScheme::Always,
        Prepend::Never => tokenizers::pre_tokenizers::metaspace::PrependScheme::Never,
    };
    let stage = tokenizers::pre_tokenizers::metaspace::Metaspace::new(replacement, scheme, split);
    (
        tokenizers::pre_tokenizers::PreTokenizerWrapper::Metaspace(stage.clone()),
        tokenizers::decoders::DecoderWrapper::Metaspace(stage),
    )
}

/// `tokenizers::TokenizerImpl::with_pre_tokenizer`: the pre-tokenizer is set, and
/// the rest of the tokenizer stays.
#[verifier::external_body]
fn set_pre_tokenizer(
    tokenizer: &mut Tokenizer,
    pre: tokenizers::pre_tokenizers::PreTokenizerWrapper,
)
    ensures
        pipeline(final(tokenizer)) == (Pipeline {
            pre: Some(pre_stage(&pre)),
            ..pipeline(old(tokenizer))
        }),
{
    tokenizer.with_pre_tokenizer(Some(pre));
}

/// `tokenizers::TokenizerImpl::with_decoder`: the decoder is set, and the rest of
/// the tokenizer stays.
#[verifier::external_body]
fn set_decoder(tokenizer: &mut Tokenizer, decoder: tokenizers::decoders::DecoderWrapper)
    ensures
        pipeline(final(tokenizer)) == (Pipeline {
            decoder: Some(decoder_stage(&decoder)),
            ..pipeline(old(tokenizer))
        }),
{
    tokenizer.with_decoder(Some(decoder));
}

/// Set a byte-level stage both as the pre-tokenizer and as the decoder.
pub(crate) fn with_byte_level(
    tokenizer: &mut Tokenizer,
    add_prefix_space: bool,
    trim_offsets: bool,
    use_regex: bool,
)
    ensures
        pipeline(final(tokenizer)) == (Pipeline {
            pre: Some(Stage::ByteLevel { add_prefix_space, trim_offsets, use_regex }),
            decoder: Some(Stage::ByteLevel { add_prefix_space, trim_offsets, use_regex }),
            ..pipeline(old(tokenizer))
        }),
{
    let (pre, decoder) = byte_level_stage(add_prefix_space, trim_offsets, use_regex);
    set_pre_tokenizer(tokenizer, pre);
    set_decoder(tokenizer, decoder);
}

/// Set a metaspace stage both as the pre-tokenizer and as the decoder.
pub(crate) fn with_metaspace(
    tokenizer: &mut Tokenizer,
    replacement: char,
    prepend: Prepend,
    split: bool,
)
    ensures
        pipeline(final(tokenizer)) == (Pipeline {
            pre: Some(Stage::Metaspace { replacement, prepend, split }),
            decoder: Some(Stage::Metaspace { replacement, prepend, split }),
            ..pipeline(old(tokenizer))
        }),
{
    let (pre, decoder) = metaspace_stage(replacement, prepend, split);
    set_pre_tokenizer(tokenizer, pre);
    set_decoder(tokenizer, decoder);
}

/// `tokenizers::TokenizerImpl::add_special_tokens`, on a tokenizer with nothing
/// registered: register tokens that are looked for in the text as it is or once
/// it is normalized; each is special (left out of decoded text on request) or
/// not. Empty texts are left out, each text is registered once, and one that is
/// given both ways is special.
#[verifier::external_body]
pub(crate) fn add_special_tokens(
    tokenizer: &mut Tokenizer,
    tokens: &[(String, bool)],
    normalized: bool,
)
    requires
        none_registered(pipeline(old(tokenizer))),
    ensures
        pipeline(final(tokenizer)) == (Pipeline {
            specials: special_texts(added_views(tokens@)),
            plain: plain_texts(added_views(tokens@), special_texts(added_views(tokens@))),
            normalized: Some(normalized),
            ..pipeline(old(tokenizer))
        }),
{
    let added: Vec<tokenizers::AddedToken> = tokens.iter().map(
        |t| tokenizers::AddedToken::from(t.0.clone(), t.1).normalized(normalized),
    ).collect();
    tokenizer.add_special_tokens(&added);
}

/// The stretches between separators.
pub open spec fn pieces_of(s: Seq<char>, separator: char) -> Seq<Seq<char>>
    decreases s.len(),
{
    if s.len() == 0 {
        seq![seq![]]
    } else {
        let rest = pieces_of(s.drop_last(), separator);
        if s.last() == separator {
            rest.push(seq![])
        } else {
            rest.update(rest.len() - 1, rest.last().push(s.last()))
        }
    }
}

/// The first part of a template piece stands for a text, or is one of these
/// special tokens.
pub open spec fn piece_named(name: Seq<char>, pairs: Seq<(Seq<char>, u32)>) -> bool {
    if name.len() > 0 && name[0] == '$' {
        let rest = name.skip(1);
        ||| rest.len() == 0
        ||| rest == seq!['A'] || rest == seq!['a'] || rest == seq!['B'] || rest == seq!['b']
        ||| u32_of(rest) is Some
    } else {
        mapped(pairs).contains_key(name)
    }
}

/// A piece of a template: a name, with a number behind a colon or without.
pub open spec fn piece_builds(piece: Seq<char>, pairs: Seq<(Seq<char>, u32)>) -> bool {
    let parts = pieces_of(piece, ':');
    &&& parts.len() <= 2
    &&& piece_named(parts[0], pairs)
    &&& parts.len() == 2 ==> u32_of(parts[1]) is Some
}

/// The template `single` can be built with the special tokens `pairs`: so can
/// each of the pieces between its spaces.
pub open spec fn template_builds(single: Seq<char>, pairs: Seq<(Seq<char>, u32)>) -> bool {
    let pieces = pieces_of(single, ' ');
    forall|i: int| 0 <= i < pieces.len() ==> piece_builds(#[trigger] pieces[i], pairs)
}

/// A piece that stands for a second text begins at `i`.
pub open spec fn second_at(s: Seq<char>, i: int) -> bool {
    &&& 0 <= i < s.len() - 1
    &&& i == 0 || s[i - 1] == ' '
    &&& s[i] == '$'
    &&& s[i + 1] == 'B' || s[i + 1] == 'b'
    &&& i + 2 == s.len() || s[i + 2] == ' ' || s[i + 2] == ':'
}

/// The template asks for a second text.
pub open spec fn asks_second(s: Seq<char>) -> bool {
    exists|i: int| #[trigger] second_at(s, i)
}

/// The tokenizer takes one text at a time.
pub open spec fn takes_one(p: Pipeline) -> bool {
    p.template matches Some(t) ==> !asks_second(t.0)
}

/// Whether the template asks for a second text.
pub fn needs_second(s: &str) -> (r: bool)
    ensures
        r == asks_second(s@),
{
    let n: usize = s.unicode_len();
    let mut i: usize = 0;
    while i < n
        invariant
            i <= n,
            n == s@.len(),
            forall|k: int| 0 <= k < i ==> !#[trigger] second_at(s@, k),
        decreases n - i,
    {
        if n - i >= 2 && (i == 0 || s.get_char(i - 1) == ' ') && s.get_char(i) == '$' && (s.get_char(
            i + 1,
        ) == 'B' || s.get_char(i + 1) == 'b') && (n - i == 2 || s.get_char(i + 2) == ' '
            || s.get_char(i + 2) == ':') {
            assert(second_at(s@, i as int));
            return true;
        }
        assert(!second_at(s@, i as int));
        i += 1;
    }
    false
}

/// The template of a post-processor: its text, and its special tokens.
pub uninterp spec fn template_parts(
    processor: &tokenizers::processors::PostProcessorWrapper,
) -> (Seq<char>, Seq<(Seq<char>, u32)>);

/// `tokenizers::processors::template::TemplateProcessing::builder`, with the
/// template for a single text and its special tokens. It builds exactly where each
/// piece between spaces stands for a text or names one of the special tokens, with
/// a number behind a colon or without.
#[verifier::external_body]
fn build_template(single: &str, pairs: Vec<(String, u32)>) -> (r: Option<
    tokenizers::processors::PostProcessorWrapper,
>)
    ensures
        r is Some <==> template_builds(single@, id_views(pairs@)),
        r matches Some(t) ==> template_parts(&t) == (single@, id_views(pairs@)),
{
    let mut builder = tokenizers::processors::template::TemplateProcessing::builder();
    builder.try_single(single).map(|b| b.special_tokens(pairs)).and_then(
        |b| b.build().map_err(|e| e.to_string()),
    ).ok().map(tokenizers::processors::PostProcessorWrapper::Template)
}

/// `tokenizers::TokenizerImpl::with_post_processor`: the template is set, and the
/// rest of the tokenizer stays.
#[verifier::external_body]
fn set_post_processor(
    tokenizer: &mut Tokenizer,
    processor: tokenizers::processors::PostProcessorWrapper,
)
    ensures
        pipeline(final(tokenizer)) == (Pipeline {
            template: Some(template_parts(&processor)),
            ..pipeline(old(tokenizer))
        }),
{
    tokenizer.with_post_processor(Some(processor));
}

/// Set a template for a single text where it builds; otherwise the tokenizer stays
/// as it is. Whether it builds is the result.
pub(crate) fn with_template(
    tokenizer: &mut Tokenizer,
    single: &str,
    pairs: Vec<(String, u32)>,
) -> (r: bool)
    ensures
        r == template_builds(single@, id_views(pairs@)),
        r ==> pipeline(final(tokenizer)) == (Pipeline {
            template: Some((single@, id_views(pairs@))),
            ..pipeline(old(tokenizer))
        }),
        !r ==> *final(tokenizer) == *old(tokenizer),
{
    match build_template(single, pairs) {
        Some(template) => {
            set_post_processor(tokenizer, template);
            true
        },
        None => false,
    }
}

/// The ids that `tokenizers::TokenizerImpl::encode` gives a text, or its error.
pub uninterp spec fn encoded(tokenizer: &Tokenizer, text: Seq<char>, add_special: bool) -> Result<
    Seq<u32>,
    Seq<char>,
>;

/// A list of ids or an error, by their views.
pub open spec fn ids_view(r: Result<Vec<u32>, String>) -> Result<Seq<u32>, Seq<char>> {
    match r {
        Ok(ids) => Ok(ids@),
        Err(e) => Err(e@),
    }
}

/// `tokenizers::TokenizerImpl::encode`; the ids, or the error as text, are named
/// `encoded`. It panics where the template asks for a second text.
#[verifier::external_body]
pub(crate) fn encode_text(tokenizer: &Tokenizer, text: &str, add_special: bool) -> (r: Result<
    Vec<u32>,
    String,
>)
    requires
        takes_one(pipeline(tokenizer)),
    ensures
        ids_view(r) == encoded(tokenizer, text@, add_special),
{
    tokenizer.encode(text, add_special).map(|e| e.get_ids().to_vec()).map_err(|e| e.to_string())
}

/// The text that `tokenizers::TokenizerImpl::decode` gives ids, or its error.
pub uninterp spec fn decoded(tokenizer: &Tokenizer, ids: Seq<u32>, skip_special: bool) -> Result<
    Seq<char>,
    Seq<char>,
>;

/// A text or an error, by their views.
pub open spec fn text_view(r: Result<String, String>) -> Result<Seq<char>, Seq<char>> {
    match r {
        Ok(text) => Ok(text@),
        Err(e) => Err(e@),
    }
}

/// `tokenizers::TokenizerImpl::decode`; the text, or the error as text, is named
/// `decoded`.
#[verifier::external_body]
pub(crate) fn decode_ids(tokenizer: &Tokenizer, ids: &[u32], skip_special: bool) -> (r: Result<
    String,
    String,
>)
    ensures
        text_view(r) == decoded(tokenizer, ids@, skip_special),
{
    tokenizer.decode(ids, skip_special).map_err(|e| e.to_string())
}

/// The id that `tokenizers::TokenizerImpl::token_to_id` gives a token text.
pub uninterp spec fn id_of(tokenizer: &Tokenizer, token: Seq<char>) -> Option<u32>;

/// `tokenizers::TokenizerImpl::token_to_id`, named `id_of`.
#[verifier::external_body]
pub(crate) fn token_to_id(tokenizer: &Tokenizer, token: &str) -> (r: Option<u32>)
    ensures
        r == id_of(tokenizer, token@),
{
    tokenizer.token_to_id(token)
}

/// A tokenizer that knows whether a text can be encoded by itself: its template may
/// ask for a second one.
pub struct TextTokenizer {
    inner: Tokenizer,
    one_text: bool,
}

impl TextTokenizer {
    #[verifier::type_invariant]
    closed spec fn known(self) -> bool {
        self.one_text == takes_one(pipeline(&self.inner))
    }

    /// Take a tokenizer with what is known of its template.
    pub fn new(inner: Tokenizer, one_text: bool) -> (r: Self)
        requires
            one_text == takes_one(pipeline(&inner)),
        ensures
            r@ == inner,
    {
        TextTokenizer { inner, one_text }
    }

    /// The tokenizer.
    pub fn get(&self) -> (r: &Tokenizer)
        ensures
            *r == self@,
    {
        &self.inner
    }

    /// Whether a text can be encoded by itself.
    pub fn takes_one_text(&self) -> (r: bool)
        ensures
            r == takes_one(pipeline(&self@)),
    {
        proof {
            use_type_invariant(self);
        }
        self.one_text
    }
}

impl View for TextTokenizer {
    type V = Tokenizer;

    closed spec fn view(&self) -> Tokenizer {
        self.inner
    }
}

/// An assembled tokenizer with what the model file says about its use.
pub struct TokenizerBundle {
    pub tokenizer: TextTokenizer,
    pub model_kind: String,
    pub bos_id: Option<u32>,
    pub eos_id: Option<u32>,
    pub add_bos_default: bool,
    pub add_eos_default: bool,
    /// The chat template of the model file, if it has one.
    pub chat_template: Option<String>,
    /// Texts of the tokens that begin and end a sequence.
    pub bos_token: Option<String>,
    pub eos_token: Option<String>,
    /// Every token id that ends a generation.
    pub eog_ids: Vec<u32>,
}

impl TokenizerBundle {
    /// A text can be encoded by itself.
    pub open spec fn takes_text(&self) -> bool {
        takes_one(pipeline(&self.tokenizer@))
    }

    /// Whether a text can be encoded by itself. Where it cannot, nothing can be
    /// encoded.
    pub fn encodes_text(&self) -> (r: bool)
        ensures
            r == self.takes_text(),
    {
        self.tokenizer.takes_one_text()
    }
}

/// State of an incremental decode: the token ids still in the window, the text
/// already handed out for them, and how many of the ids that text covers.
pub struct DecodeState {
    pub ids: Vec<u32>,
    pub prefix: String,
    pub prefix_index: usize,
}

/// The outside tokenizer reported an error.
pub struct TokenizerFailure;

impl View for DecodeState {
    type V = (Seq<u32>, Seq<char>, usize);

    open spec fn view(&self) -> (Seq<u32>, Seq<char>, usize) {
        (self.ids@, self.prefix@, self.prefix_index)
    }
}

/// A decoded string by its view: `None` is a failure, `Some(None)` no text yet.
pub open spec fn stream_text(r: Result<Option<String>, TokenizerFailure>) -> Option<
    Option<Seq<char>>,
> {
    match r {
        Ok(Some(text)) => Some(Some(text@)),
        Ok(None) => Some(None),
        Err(_) => None,
    }
}

/// What `tokenizers::step_decode_stream` gives for one more token: the text it
/// hands out, and the state it leaves.
pub uninterp spec fn stream_step(
    tokenizer: &Tokenizer,
    token: u32,
    ids: Seq<u32>,
    prefix: Seq<char>,
    prefix_index: usize,
    skip_special: bool,
) -> (Option<Option<Seq<char>>>, (Seq<u32>, Seq<char>, usize));

/// `tokenizers::step_decode_stream`: feed one token to the incremental decoder,
/// with special tokens skipped or not. The result and the state left behind are
/// named `stream_step`. It panics where `prefix_index` lies past the ids.
#[verifier::external_body]
pub(crate) fn step_decode_stream(
    tokenizer: &Tokenizer,
    token: u32,
    state: &mut DecodeState,
    skip_special: bool,
) -> (r: Result<Option<String>, TokenizerFailure>)
    requires
        old(state).prefix_index <= old(state).ids@.len(),
    ensures
        (stream_text(r), final(state)@) == stream_step(
            tokenizer,
            token,
            old(state).ids@,
            old(state).prefix@,
            old(state).prefix_index,
            skip_special,
        ),
{
    tokenizers::step_decode_stream(
        tokenizer,
        vec![token],
        skip_special,
        &mut state.ids,
        &mut state.prefix,
        &mut state.prefix_index,
    ).map_err(|_| TokenizerFailure)
}

} // verus!
