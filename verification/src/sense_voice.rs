//! The offline recognizer's side of decoding: the output languages, and the
//! greedy decoding of the per-frame best token ids into text.

use crate::seqs::concat_all;
use crate::token::{ids_to_tokens, join, TokenIdConverter};
use vstd::prelude::*;
use vstd::string::StringExecFns;

verus! {

/// Id that stands for "no token" in the per-frame output.
pub const BLANK_ID: usize = 0;

/// Value of the text-normalization input of the offline recognizer.
pub const TEXT_NORM: i32 = 15;

/// Output language of the offline recognizer.
#[derive(Debug, Clone, Copy, PartialEq, Eq, Structural)]
pub enum Language {
    Auto,
    Chinese,
    English,
    Cantonese,
    Japanese,
    Korean,
    NoSpeech,
}

/// A language name that names no language.
#[derive(Debug)]
pub struct LanguageError {
    /// The name as it was given.
    pub name: String,
}

impl LanguageError {
    /// The error as text: a fixed notice, then the name.
    pub fn message(&self) -> (text: String)
        ensures
            text@ == "无法识别的语言: "@ + self.name@,
    {
        let notice = String::from_str("无法识别的语言: ");
        notice.concat(self.name.as_str())
    }
}

/// Whether `name` is the name of a language.
pub open spec fn is_language_name(name: Seq<char>) -> bool {
    ||| name == Language::Auto.spec_name()
    ||| name == Language::Chinese.spec_name()
    ||| name == Language::English.spec_name()
    ||| name == Language::Cantonese.spec_name()
    ||| name == Language::Japanese.spec_name()
    ||| name == Language::Korean.spec_name()
    ||| name == Language::NoSpeech.spec_name()
}

impl Language {
    /// The language's name as the user reads it.
    pub open spec fn spec_name(self) -> Seq<char> {
        match self {
            Language::Auto => "自动"@,
            Language::Chinese => "中文"@,
            Language::English => "英文"@,
            Language::Cantonese => "粤语"@,
            Language::Japanese => "日语"@,
            Language::Korean => "韩语"@,
            Language::NoSpeech => "无语音"@,
        }
    }

    /// The number that selects the language in the recognizer's input.
    pub open spec fn spec_code(self) -> int {
        match self {
            Language::Auto => 0,
            Language::Chinese => 3,
            Language::English => 4,
            Language::Cantonese => 7,
            Language::Japanese => 11,
            Language::Korean => 12,
            Language::NoSpeech => 13,
        }
    }

    /// The language's name as the user reads it.
    pub fn to_string(&self) -> (name: String)
        ensures
            name@ == self.spec_name(),
    {
        match self {
            Language::Auto => String::from_str("自动"),
            Language::Chinese => String::from_str("中文"),
            Language::English => String::from_str("英文"),
            Language::Cantonese => String::from_str("粤语"),
            Language::Japanese => String::from_str("日语"),
            Language::Korean => String::from_str("韩语"),
            Language::NoSpeech => String::from_str("无语音"),
        }
    }

    /// The number that selects the language in the recognizer's input.
    pub fn code(&self) -> (code: i32)
        ensures
            code == self.spec_code(),
    {
        match self {
            Language::Auto => 0,
            Language::Chinese => 3,
            Language::English => 4,
            Language::Cantonese => 7,
            Language::Japanese => 11,
            Language::Korean => 12,
            Language::NoSpeech => 13,
        }
    }

    /// Every language, in the order of the menu.
    pub fn all() -> (languages: Vec<Language>)
        ensures
            languages@ == seq![
                Language::Auto,
                Language::Chinese,
                Language::English,
                Language::Cantonese,
                Language::Japanese,
                Language::Korean,
                Language::NoSpeech,
            ],
    {
        let mut languages: Vec<Language> = Vec::new();
        languages.push(Language::Auto);
        languages.push(Language::Chinese);
        languages.push(Language::English);
        languages.push(Language::Cantonese);
        languages.push(Language::Japanese);
        languages.push(Language::Korean);
        languages.push(Language::NoSpeech);
        proof {
            assert(languages@ =~= seq![
                Language::Auto,
                Language::Chinese,
                Language::English,
                Language::Cantonese,
                Language::Japanese,
                Language::Korean,
                Language::NoSpeech,
            ]);
        }
        languages
    }

    /// The language of the given name; an error that carries the name where
    /// it names none.
    pub fn from_str(name: &str) -> (language: Result<Language, LanguageError>)
        ensures
            language is Ok <==> is_language_name(name@),
            language is Ok ==> name@ == language->Ok_0.spec_name(),
            language is Err ==> language->Err_0.name@ == name@,
    {
        let given = String::from_str(name);
        if given == String::from_str("自动") {
            Ok(Language::Auto)
        } else if given == String::from_str("中文") {
            Ok(Language::Chinese)
        } else if given == String::from_str("英文") {
            Ok(Language::English)
        } else if given == String::from_str("粤语") {
            Ok(Language::Cantonese)
        } else if given == String::from_str("日语") {
            Ok(Language::Japanese)
        } else if given == String::from_str("韩语") {
            Ok(Language::Korean)
        } else if given == String::from_str("无语音") {
            Ok(Language::NoSpeech)
        } else {
            Err(LanguageError { name: given })
        }
    }
}

/// No two languages share a name.
pub proof fn lemma_names_differ()
    ensures
        forall|a: Language, b: Language| a.spec_name() == b.spec_name() ==> a == b,
{
    reveal_strlit("自动");
    reveal_strlit("中文");
    reveal_strlit("英文");
    reveal_strlit("粤语");
    reveal_strlit("日语");
    reveal_strlit("韩语");
    reveal_strlit("无语音");
    assert("自动"@[0] == '自');
    assert("中文"@[0] == '中');
    assert("英文"@[0] == '英');
    assert("粤语"@[0] == '粤');
    assert("日语"@[0] == '日');
    assert("韩语"@[0] == '韩');
    assert("无语音"@[0] == '无');
}

/// `ids` with every run of equal ids shortened to one.
pub open spec fn collapse(ids: Seq<usize>) -> Seq<usize>
    decreases ids.len(),
{
    if ids.len() == 0 {
        Seq::empty()
    } else if ids.len() >= 2 && ids[ids.len() - 2] == ids.last() {
        collapse(ids.drop_last())
    } else {
        collapse(ids.drop_last()).push(ids.last())
    }
}

/// `ids` without the ids `a` and `b`.
pub open spec fn without(ids: Seq<usize>, a: usize, b: usize) -> Seq<usize>
    decreases ids.len(),
{
    if ids.len() == 0 {
        Seq::empty()
    } else if ids.last() == a || ids.last() == b {
        without(ids.drop_last(), a, b)
    } else {
        without(ids.drop_last(), a, b).push(ids.last())
    }
}

/// The token ids that greedy decoding reads from the per-frame best ids:
/// runs shortened to one id, then the blank id removed.
pub open spec fn ctc_ids(ids: Seq<usize>) -> Seq<usize> {
    without(collapse(ids), BLANK_ID, BLANK_ID)
}

/// No id is followed by itself.
pub open spec fn no_repeat(ids: Seq<usize>) -> bool {
    forall|i: int| 0 <= i < ids.len() - 1 ==> ids[i] != #[trigger] ids[i + 1]
}

/// `ids` holds neither `a` nor `b`.
pub open spec fn holds_none(ids: Seq<usize>, a: usize, b: usize) -> bool {
    forall|i: int| 0 <= i < ids.len() ==> #[trigger] ids[i] != a && ids[i] != b
}

/// `ids` with every run of equal ids shortened to one.
pub fn ctc_collapse(ids: &[usize]) -> (out: Vec<usize>)
    ensures
        out@ == collapse(ids@),
{
    let mut out: Vec<usize> = Vec::new();
    let mut k: usize = 0;
    proof {
        assert(ids@.take(0) =~= Seq::<usize>::empty());
    }
    while k < ids.len()
        invariant
            k <= ids@.len(),
            out@ == collapse(ids@.take(k as int)),
        decreases ids@.len() - k,
    {
        proof {
            assert(ids@.take(k + 1).drop_last() =~= ids@.take(k as int));
        }
        if k == 0 || ids[k - 1] != ids[k] {
            out.push(ids[k]);
        }
        k = k + 1;
    }
    proof {
        assert(ids@.take(k as int) =~= ids@);
    }
    out
}

/// `ids` without the ids `a` and `b`.
pub fn remove_ids(ids: &[usize], a: usize, b: usize) -> (out: Vec<usize>)
    ensures
        out@ == without(ids@, a, b),
{
    let mut out: Vec<usize> = Vec::new();
    let mut k: usize = 0;
    proof {
        assert(ids@.take(0) =~= Seq::<usize>::empty());
    }
    while k < ids.len()
        invariant
            k <= ids@.len(),
            out@ == without(ids@.take(k as int), a, b),
        decreases ids@.len() - k,
    {
        proof {
            assert(ids@.take(k + 1).drop_last() =~= ids@.take(k as int));
        }
        if ids[k] != a && ids[k] != b {
            out.push(ids[k]);
        }
        k = k + 1;
    }
    proof {
        assert(ids@.take(k as int) =~= ids@);
    }
    out
}

/// Greedy decoding. `max_indices` holds, frame by frame, the id with the
/// highest score. Runs of equal ids count once, blanks are dropped, and the
/// tokens of what is left are joined without a separator. No frames give the
/// empty text.
pub fn decode(max_indices: &[usize], token_converter: &TokenIdConverter) -> (text: String)
    requires
        token_converter.wf(),
    ensures
        text@ == concat_all(ids_to_tokens(token_converter@, ctc_ids(max_indices@))),
{
    let merged = ctc_collapse(max_indices);
    let kept = remove_ids(merged.as_slice(), BLANK_ID, BLANK_ID);
    let tokens = token_converter.ids2tokens(kept.as_slice());
    join(&tokens)
}

/// The last id of a sequence is the last id of what it collapses to.
pub proof fn lemma_collapse_last(ids: Seq<usize>)
    requires
        ids.len() > 0,
    ensures
        collapse(ids).len() > 0,
        collapse(ids).last() == ids.last(),
    decreases ids.len(),
{
    if ids.len() >= 2 && ids[ids.len() - 2] == ids.last() {
        lemma_collapse_last(ids.drop_last());
    }
}

/// What a sequence collapses to repeats no id.
pub proof fn lemma_collapse_no_repeat(ids: Seq<usize>)
    ensures
        no_repeat(collapse(ids)),
    decreases ids.len(),
{
    if ids.len() > 0 {
        lemma_collapse_no_repeat(ids.drop_last());
        if ids.len() >= 2 {
            lemma_collapse_last(ids.drop_last());
        }
    }
}

/// A sequence collapses to itself exactly if it repeats no id.
pub proof fn lemma_collapse_fixed(ids: Seq<usize>)
    ensures
        no_repeat(ids) <==> collapse(ids) == ids,
    decreases ids.len(),
{
    if collapse(ids) == ids {
        lemma_collapse_no_repeat(ids);
    }
    if ids.len() == 0 {
        assert(collapse(ids) =~= ids);
    }
    if no_repeat(ids) && ids.len() > 0 {
        let front = ids.drop_last();
        assert forall|i: int| 0 <= i < front.len() - 1 implies front[i] != #[trigger] front[i
            + 1] by {
            assert(ids[i] != ids[i + 1]);
        }
        lemma_collapse_fixed(front);
        if ids.len() >= 2 {
            assert(ids[ids.len() - 2] != ids[ids.len() - 2 + 1]);
        }
        assert(front.push(ids.last()) =~= ids);
    }
}

/// Collapsing twice is collapsing once.
pub proof fn lemma_collapse_idempotent(ids: Seq<usize>)
    ensures
        collapse(collapse(ids)) == collapse(ids),
{
    lemma_collapse_no_repeat(ids);
    lemma_collapse_fixed(collapse(ids));
}

/// What is left after removing two ids holds neither.
pub proof fn lemma_without_holds_none(ids: Seq<usize>, a: usize, b: usize)
    ensures
        holds_none(without(ids, a, b), a, b),
    decreases ids.len(),
{
    if ids.len() > 0 {
        lemma_without_holds_none(ids.drop_last(), a, b);
    }
}

/// Removing two ids from a sequence that holds neither changes nothing.
pub proof fn lemma_without_fixed(ids: Seq<usize>, a: usize, b: usize)
    requires
        holds_none(ids, a, b),
    ensures
        without(ids, a, b) == ids,
    decreases ids.len(),
{
    if ids.len() > 0 {
        let front = ids.drop_last();
        assert forall|i: int| 0 <= i < front.len() implies #[trigger] front[i] != a && front[i]
            != b by {
            assert(ids[i] != a && ids[i] != b);
        }
        lemma_without_fixed(front, a, b);
        assert(ids[ids.len() - 1] != a && ids[ids.len() - 1] != b);
        assert(front.push(ids.last()) =~= ids);
    }
}

/// Decoding what was decoded changes nothing exactly if the decoded ids
/// repeat no id. Removing the blank between two equal ids leaves them side
/// by side, and a second collapse would then merge them.
pub proof fn lemma_decode_twice(ids: Seq<usize>)
    ensures
        no_repeat(ctc_ids(ids)) <==> ctc_ids(ctc_ids(ids)) == ctc_ids(ids),
{
    let once = ctc_ids(ids);
    lemma_without_holds_none(collapse(ids), BLANK_ID, BLANK_ID);
    lemma_collapse_fixed(once);
    if no_repeat(once) {
        lemma_without_fixed(once, BLANK_ID, BLANK_ID);
    } else {
        lemma_without_shorter(collapse(once), BLANK_ID, BLANK_ID);
        lemma_collapse_shorter(once);
    }
}

/// Removing ids never lengthens a sequence.
pub proof fn lemma_without_shorter(ids: Seq<usize>, a: usize, b: usize)
    ensures
        without(ids, a, b).len() <= ids.len(),
    decreases ids.len(),
{
    if ids.len() > 0 {
        lemma_without_shorter(ids.drop_last(), a, b);
    }
}

/// Collapsing never lengthens a sequence, and shortens one that repeats an
/// id.
pub proof fn lemma_collapse_shorter(ids: Seq<usize>)
    ensures
        collapse(ids).len() <= ids.len(),
        !no_repeat(ids) ==> collapse(ids).len() < ids.len(),
    decreases ids.len(),
{
    if ids.len() > 0 {
        let front = ids.drop_last();
        lemma_collapse_shorter(front);
        if !no_repeat(ids) {
            let i = choose|i: int| 0 <= i < ids.len() - 1 && ids[i] == #[trigger] ids[i + 1];
            if i + 1 < ids.len() - 1 {
                assert(front[i] == front[i + 1]);
            }
        }
    }
}

} // verus!
