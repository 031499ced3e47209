//! The streaming recognizer's state between calls and the parts of one call
//! that select and move values: the overlap of consecutive chunks, the part
//! of a chunk that may emit tokens, and the decoding of token ids into text.

use crate::constant::{MEL_BINS, SPEECH_RECOGNITION_LFR_M};
use crate::frontend::rows_have_width;
use crate::seqs::{concat_all, copy_rows, filled, filled_rows, rows_view};
use crate::sense_voice::{remove_ids, without};
use crate::token::{ids_to_tokens, join, TokenIdConverter};
use vstd::prelude::*;

verus! {

/// Rows of the chunk before the current one that open a chunk.
pub const CHUNK_SIZE_PRE: usize = 5;

/// Rows kept back behind the part of a chunk that may emit tokens.
pub const CHUNK_SIZE_BACK: usize = 5;

/// Rows of a chunk that may emit tokens.
pub const CHUNK_SIZE: usize = 10;

/// Width of the encoder's output.
pub const OUTPUT_SIZE: usize = 512;

/// Memory layers of the decoder.
pub const FSMN_LAYER: usize = 16;

/// Taps that each memory layer of the decoder keeps.
pub const FSMN_LORDER: usize = 10;

/// Width of one row of input features.
pub const FEATURE_WIDTH: usize = 560;

/// Id of the blank token.
pub const BLANK_ID: usize = 0;

/// Id of the token that ends a sentence.
pub const EOS_ID: usize = 2;

/// The state of the streaming recognizer, as mathematical values.
pub struct CacheView<T> {
    /// The last rows of the previous chunk.
    pub feats: Seq<Seq<T>>,
    /// Rows consumed since the utterance started.
    pub start_idx: nat,
    /// What the integrator holds of the frame it stopped in.
    pub cif_hidden: Seq<T>,
    /// Weight that the integrator has gathered towards the next token.
    pub cif_alphas: T,
    /// The decoder's memory: layers, then features, then taps.
    pub decoder_fsmn: Seq<Seq<Seq<T>>>,
}

/// The shapes that the state keeps for the whole of an utterance.
pub open spec fn cache_shape<T>(c: CacheView<T>) -> bool {
    &&& c.feats.len() == CHUNK_SIZE_PRE + CHUNK_SIZE_BACK
    &&& rows_have_width(c.feats, FEATURE_WIDTH as nat)
    &&& c.cif_hidden.len() == OUTPUT_SIZE
    &&& c.decoder_fsmn.len() == FSMN_LAYER
    &&& forall|l: int|
        0 <= l < FSMN_LAYER ==> (#[trigger] c.decoder_fsmn[l]).len() == OUTPUT_SIZE
            && rows_have_width(c.decoder_fsmn[l], FSMN_LORDER as nat)
}

/// The state at the start of an utterance: everything is `zero`.
pub open spec fn fresh_cache<T>(zero: T) -> CacheView<T> {
    CacheView {
        feats: Seq::new(
            (CHUNK_SIZE_PRE + CHUNK_SIZE_BACK) as nat,
            |r: int| Seq::new(FEATURE_WIDTH as nat, |c: int| zero),
        ),
        start_idx: 0,
        cif_hidden: Seq::new(OUTPUT_SIZE as nat, |c: int| zero),
        cif_alphas: zero,
        decoder_fsmn: Seq::new(
            FSMN_LAYER as nat,
            |l: int|
                Seq::new(OUTPUT_SIZE as nat, |r: int| Seq::new(FSMN_LORDER as nat, |c: int| zero)),
        ),
    }
}

/// The layers of a decoder memory, each as its rows.
pub open spec fn layers_view<T>(layers: Seq<Vec<Vec<T>>>) -> Seq<Seq<Seq<T>>> {
    Seq::new(layers.len(), |l: int| rows_view(layers[l]@))
}

/// State of the streaming recognizer between two calls of one utterance.
#[derive(Debug)]
pub struct Cache<T> {
    feats: Vec<Vec<T>>,
    start_idx: usize,
    cif_hidden: Vec<T>,
    cif_alphas: T,
    decoder_fsmn: Vec<Vec<Vec<T>>>,
}

impl<T> View for Cache<T> {
    type V = CacheView<T>;

    closed spec fn view(&self) -> CacheView<T> {
        CacheView {
            feats: rows_view(self.feats@),
            start_idx: self.start_idx as nat,
            cif_hidden: self.cif_hidden@,
            cif_alphas: self.cif_alphas,
            decoder_fsmn: layers_view(self.decoder_fsmn@),
        }
    }
}

impl<T: Copy> Cache<T> {
    /// The state has its fixed shapes.
    pub open spec fn wf(&self) -> bool {
        cache_shape(self@)
    }

    /// The state at the start of an utterance, every value being `zero`.
    pub fn new(zero: T) -> (cache: Self)
        ensures
            cache.wf(),
            cache@ == fresh_cache(zero),
    {
        assert(SPEECH_RECOGNITION_LFR_M * MEL_BINS == FEATURE_WIDTH);
        let feats = filled_rows(zero, CHUNK_SIZE_PRE + CHUNK_SIZE_BACK, FEATURE_WIDTH);
        let cif_hidden = filled(zero, OUTPUT_SIZE);
        let mut decoder_fsmn: Vec<Vec<Vec<T>>> = Vec::new();
        while decoder_fsmn.len() < FSMN_LAYER
            invariant
                decoder_fsmn@.len() <= FSMN_LAYER,
                forall|l: int|
                    0 <= l < decoder_fsmn@.len() ==> rows_view((#[trigger] decoder_fsmn@[l])@)
                        == Seq::new(
                        OUTPUT_SIZE as nat,
                        |r: int| Seq::new(FSMN_LORDER as nat, |c: int| zero),
                    ),
            decreases FSMN_LAYER - decoder_fsmn@.len(),
        {
            decoder_fsmn.push(filled_rows(zero, OUTPUT_SIZE, FSMN_LORDER));
        }
        let cache = Cache { feats, start_idx: 0, cif_hidden, cif_alphas: zero, decoder_fsmn };
        proof {
            assert(cache@.decoder_fsmn =~= fresh_cache(zero).decoder_fsmn);
            assert(cache@.feats =~= fresh_cache(zero).feats);
        }
        cache
    }

    /// Rows consumed since the utterance started. The rows of the next call
    /// stand at the positions after this one.
    pub fn start_idx(&self) -> (index: usize)
        ensures
            index == self@.start_idx,
    {
        self.start_idx
    }

    /// The last rows of the previous chunk.
    pub fn feats(&self) -> (feats: &Vec<Vec<T>>)
        ensures
            rows_view(feats@) == self@.feats,
    {
        &self.feats
    }

    /// What the integrator holds of the frame it stopped in.
    pub fn cif_hidden(&self) -> (hidden: &Vec<T>)
        ensures
            hidden@ == self@.cif_hidden,
    {
        &self.cif_hidden
    }

    /// Weight that the integrator has gathered towards the next token.
    pub fn cif_alphas(&self) -> (alphas: T)
        ensures
            alphas == self@.cif_alphas,
    {
        self.cif_alphas
    }

    /// The memory of decoder layer `layer`.
    pub fn decoder_fsmn(&self, layer: usize) -> (memory: &Vec<Vec<T>>)
        requires
            self.wf(),
            layer < FSMN_LAYER,
        ensures
            rows_view(memory@) == self@.decoder_fsmn[layer as int],
    {
        &self.decoder_fsmn[layer]
    }

    /// Puts the rows kept from the previous chunk in front of `features`
    /// and keeps the last rows of the result for the next chunk.
    pub fn add_overlap_chunk(&mut self, features: Vec<Vec<T>>) -> (chunk: Vec<Vec<T>>)
        requires
            old(self).wf(),
            rows_have_width(rows_view(features@), FEATURE_WIDTH as nat),
        ensures
            final(self).wf(),
            rows_view(chunk@) == old(self)@.feats + rows_view(features@),
            final(self)@ == (CacheView {
                feats: rows_view(chunk@).skip(rows_view(features@).len() as int),
                ..old(self)@
            }),
    {
        let mut chunk = copy_rows(&self.feats, 0, self.feats.len());
        let mut features = features;
        let ghost added = rows_view(features@);
        let ghost kept = rows_view(chunk@);
        chunk.append(&mut features);
        proof {
            assert(kept =~= self@.feats);
            assert(rows_view(chunk@) =~= kept + added);
        }
        let n = chunk.len();
        self.feats = copy_rows(&chunk, n - (CHUNK_SIZE_PRE + CHUNK_SIZE_BACK), n);
        proof {
            assert(self@.feats =~= rows_view(chunk@).skip(added.len() as int));
            assert(self@.decoder_fsmn == old(self)@.decoder_fsmn);
        }
        chunk
    }

    /// What the integrator reads for a chunk. Where it was left with weight
    /// from the chunk before (`carry`), the frame and the weight that it
    /// stopped with come first; then the frames `hidden` and their weights
    /// `alphas` of this chunk.
    pub fn with_carry(&self, hidden: Vec<Vec<T>>, alphas: Vec<T>, carry: bool) -> (out: (
        Vec<Vec<T>>,
        Vec<T>,
    ))
        ensures
            rows_view(out.0@) == if carry {
                seq![self@.cif_hidden] + rows_view(hidden@)
            } else {
                rows_view(hidden@)
            },
            out.1@ == if carry {
                seq![self@.cif_alphas] + alphas@
            } else {
                alphas@
            },
    {
        if !carry {
            return (hidden, alphas);
        }
        let ghost rows = rows_view(hidden@);
        let mut final_hidden: Vec<Vec<T>> = Vec::new();
        final_hidden.push(crate::seqs::copy_range(&self.cif_hidden, 0, self.cif_hidden.len()));
        let mut hidden = hidden;
        final_hidden.append(&mut hidden);
        let mut final_alphas: Vec<T> = Vec::new();
        final_alphas.push(self.cif_alphas);
        crate::seqs::append_copy(&mut final_alphas, &alphas);
        proof {
            assert(final_hidden@[0]@ =~= self@.cif_hidden);
            assert(rows_view(final_hidden@) =~= seq![self@.cif_hidden] + rows);
            assert(final_alphas@ =~= seq![self@.cif_alphas] + alphas@);
        }
        (final_hidden, final_alphas)
    }

    /// Counts `rows` more rows as consumed.
    pub fn advance(&mut self, rows: usize)
        requires
            old(self)@.start_idx + rows <= usize::MAX,
        ensures
            final(self)@ == (CacheView {
                start_idx: old(self)@.start_idx + rows as nat,
                ..old(self)@
            }),
    {
        self.start_idx = self.start_idx + rows;
    }

    /// Stores what the integrator is left with after a chunk.
    pub fn set_cif(&mut self, hidden: Vec<T>, alphas: T)
        requires
            old(self).wf(),
            hidden@.len() == OUTPUT_SIZE,
        ensures
            final(self).wf(),
            final(self)@ == (CacheView {
                cif_hidden: hidden@,
                cif_alphas: alphas,
                ..old(self)@
            }),
    {
        self.cif_hidden = hidden;
        self.cif_alphas = alphas;
    }

    /// Stores the memory that the decoder returned for layer `layer`.
    pub fn set_decoder_fsmn(&mut self, layer: usize, memory: Vec<Vec<T>>)
        requires
            old(self).wf(),
            layer < FSMN_LAYER,
            memory@.len() == OUTPUT_SIZE,
            rows_have_width(rows_view(memory@), FSMN_LORDER as nat),
        ensures
            final(self).wf(),
            final(self)@ == (CacheView {
                decoder_fsmn: old(self)@.decoder_fsmn.update(layer as int, rows_view(memory@)),
                ..old(self)@
            }),
    {
        let ghost rows = rows_view(memory@);
        self.decoder_fsmn[layer] = memory;
        proof {
            assert(self@.decoder_fsmn =~= old(self)@.decoder_fsmn.update(layer as int, rows));
        }
    }
}

/// The weights of a chunk with those outside the emitting part set to
/// `zero`: the first `CHUNK_SIZE_PRE` and all from place
/// `CHUNK_SIZE_PRE + CHUNK_SIZE` on.
pub open spec fn masked<T>(alphas: Seq<T>, zero: T) -> Seq<T> {
    Seq::new(
        alphas.len(),
        |i: int|
            if CHUNK_SIZE_PRE <= i < CHUNK_SIZE_PRE + CHUNK_SIZE {
                alphas[i]
            } else {
                zero
            },
    )
}

/// Silences the rows of a chunk that only give context, so that tokens are
/// emitted by the middle rows alone.
pub fn mask_alphas<T: Copy>(alphas: &mut Vec<T>, zero: T)
    ensures
        final(alphas)@ == masked(old(alphas)@, zero),
{
    let n = alphas.len();
    let mut i: usize = 0;
    while i < n
        invariant
            n == alphas@.len(),
            n == old(alphas)@.len(),
            i <= n,
            forall|k: int| 0 <= k < i ==> alphas@[k] == masked(old(alphas)@, zero)[k],
            forall|k: int| i <= k < n ==> alphas@[k] == old(alphas)@[k],
        decreases n - i,
    {
        if i < CHUNK_SIZE_PRE || i >= CHUNK_SIZE_PRE + CHUNK_SIZE {
            alphas[i] = zero;
        }
        i = i + 1;
    }
    proof {
        assert(alphas@ =~= masked(old(alphas)@, zero));
    }
}

/// The text of a chunk. `token_int` holds, token by token, the id with the
/// highest score. Blanks and sentence ends are dropped, and the tokens of
/// what is left are joined without a separator.
pub fn decode(token_int: &[usize], token_converter: &TokenIdConverter) -> (text: String)
    requires
        token_converter.wf(),
    ensures
        text@ == concat_all(
            ids_to_tokens(token_converter@, without(token_int@, BLANK_ID, EOS_ID)),
        ),
{
    let filtered_token_int = remove_ids(token_int, BLANK_ID, EOS_ID);
    let tokens = token_converter.ids2tokens(filtered_token_int.as_slice());
    join(&tokens)
}

} // verus!
