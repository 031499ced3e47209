//! The token table of a recognizer: reading it from the text of a token file
//! and mapping between token ids and tokens.

use vstd::prelude::*;
use vstd::string::StringExecFns;

verus! {

/// `String::push` appends the character to the end of the string.
pub assume_specification[ String::push ](s: &mut String, ch: char)
    ensures
        final(s)@ == old(s)@.push(ch),
;

/// The strings of a vector, each as its characters.
pub open spec fn strings_view(strings: Seq<String>) -> Seq<Seq<char>> {
    Seq::new(strings.len(), |i: int| strings[i]@)
}

/// Whether `c` separates columns: the characters with the Unicode property
/// White_Space.
pub open spec fn is_space(c: char) -> bool {
    let n = c as u32;
    ||| 0x09 <= n <= 0x0D
    ||| n == 0x20
    ||| n == 0x85
    ||| n == 0xA0
    ||| n == 0x1680
    ||| 0x2000 <= n <= 0x200A
    ||| n == 0x2028
    ||| n == 0x2029
    ||| n == 0x202F
    ||| n == 0x205F
    ||| n == 0x3000
}

/// Whether `c` separates columns.
pub fn is_whitespace(c: char) -> (space: bool)
    ensures
        space == is_space(c),
{
    let n: u32 = c as u32;
    (0x09 <= n && n <= 0x0D) || n == 0x20 || n == 0x85 || n == 0xA0 || n == 0x1680 || (0x2000 <= n
        && n <= 0x200A) || n == 0x2028 || n == 0x2029 || n == 0x202F || n == 0x205F || n == 0x3000
}

/// Where the line that holds position `from` ends: the next line feed at or
/// after `from`, or the end of the text.
pub open spec fn line_end(text: Seq<char>, from: int) -> int
    decreases text.len() - from,
{
    if from >= text.len() {
        text.len() as int
    } else if text[from] == '\n' {
        from
    } else {
        line_end(text, from + 1)
    }
}

/// The first position at or after `from`, before `to`, that holds no space;
/// `to` if there is none.
pub open spec fn skip_spaces(text: Seq<char>, from: int, to: int) -> int
    decreases to - from,
{
    if from < to && is_space(text[from]) {
        skip_spaces(text, from + 1, to)
    } else {
        from
    }
}

/// The first position at or after `from`, before `to`, that holds a space;
/// `to` if there is none.
pub open spec fn word_end(text: Seq<char>, from: int, to: int) -> int
    decreases to - from,
{
    if from < to && !is_space(text[from]) {
        word_end(text, from + 1, to)
    } else {
        from
    }
}

/// The first column of the line `text[from..to]`: its first run of
/// characters that are no spaces. Empty for a blank line.
pub open spec fn first_word(text: Seq<char>, from: int, to: int) -> Seq<char> {
    let start = skip_spaces(text, from, to);
    text.subrange(start, word_end(text, start, to))
}

/// The first columns of the lines from position `from` on, blank lines left
/// out.
pub open spec fn tokens_from(text: Seq<char>, from: int) -> Seq<Seq<char>>
    decreases text.len() - from,
    via tokens_from_decreases
{
    if from < 0 || from >= text.len() {
        Seq::empty()
    } else {
        let end = line_end(text, from);
        let word = first_word(text, from, end);
        let rest = if end < text.len() {
            tokens_from(text, end + 1)
        } else {
            Seq::empty()
        };
        if word.len() > 0 {
            seq![word] + rest
        } else {
            rest
        }
    }
}

#[via_fn]
proof fn tokens_from_decreases(text: Seq<char>, from: int) {
    if 0 <= from < text.len() {
        lemma_line_end_bounds(text, from);
    }
}

/// The tokens of a token file: the first column of every line that is not
/// blank, in order.
pub open spec fn token_lines(text: Seq<char>) -> Seq<Seq<char>> {
    tokens_from(text, 0)
}

/// A line ends at or after the position it is asked for, inside the text.
pub proof fn lemma_line_end_bounds(text: Seq<char>, from: int)
    requires
        0 <= from <= text.len(),
    ensures
        from <= line_end(text, from) <= text.len(),
        line_end(text, from) < text.len() ==> text[line_end(text, from)] == '\n',
        forall|k: int| from <= k < line_end(text, from) ==> text[k] != '\n',
    decreases text.len() - from,
{
    if from < text.len() && text[from] != '\n' {
        lemma_line_end_bounds(text, from + 1);
    }
}

/// The characters of `text`.
pub fn to_chars(text: &str) -> (chars: Vec<char>)
    ensures
        chars@ == text@,
{
    let mut chars: Vec<char> = Vec::new();
    for c in it: text.chars()
        invariant
            it.seq() == text@,
            chars@ == it.seq().take(it.index() as int),
    {
        chars.push(c);
        proof {
            assert(chars@ =~= it.seq().take(it.index() + 1));
        }
    }
    proof {
        assert(chars@ =~= text@);
    }
    chars
}

/// The string of the characters `chars[from..to]`.
pub fn string_of(chars: &Vec<char>, from: usize, to: usize) -> (s: String)
    requires
        from <= to <= chars@.len(),
    ensures
        s@ == chars@.subrange(from as int, to as int),
{
    let mut s = String::new();
    let mut i: usize = from;
    proof {
        assert(s@ =~= chars@.subrange(from as int, i as int));
    }
    while i < to
        invariant
            from <= i <= to <= chars@.len(),
            s@ == chars@.subrange(from as int, i as int),
        decreases to - i,
    {
        s.push(chars[i]);
        i = i + 1;
        proof {
            assert(s@ =~= chars@.subrange(from as int, i as int));
        }
    }
    s
}

/// Reads the tokens of a token file from its text: one token per line, the
/// first of the columns that spaces separate; blank lines are skipped.
pub fn parse_tokens(text: &str) -> (tokens: Vec<String>)
    ensures
        strings_view(tokens@) == token_lines(text@),
{
    let chars = to_chars(text);
    let n = chars.len();
    let mut tokens: Vec<String> = Vec::new();
    let mut i: usize = 0;
    proof {
        assert(strings_view(tokens@) + tokens_from(chars@, 0) =~= token_lines(chars@));
    }
    while i < n
        invariant
            n == chars@.len(),
            i <= n,
            strings_view(tokens@) + tokens_from(chars@, i as int) == token_lines(chars@),
        decreases n - i,
    {
        let mut end: usize = i;
        while end < n && chars[end] != '\n'
            invariant
                n == chars@.len(),
                i <= end <= n,
                line_end(chars@, i as int) == line_end(chars@, end as int),
            decreases n - end,
        {
            end = end + 1;
        }
        let mut start: usize = i;
        while start < end && is_whitespace(chars[start])
            invariant
                i <= start <= end <= n,
                n == chars@.len(),
                skip_spaces(chars@, i as int, end as int) == skip_spaces(
                    chars@,
                    start as int,
                    end as int,
                ),
            decreases end - start,
        {
            start = start + 1;
        }
        let mut stop: usize = start;
        while stop < end && !is_whitespace(chars[stop])
            invariant
                start <= stop <= end <= n,
                n == chars@.len(),
                word_end(chars@, start as int, end as int) == word_end(
                    chars@,
                    stop as int,
                    end as int,
                ),
            decreases end - stop,
        {
            stop = stop + 1;
        }
        let ghost before = strings_view(tokens@);
        if stop > start {
            let token = string_of(&chars, start, stop);
            tokens.push(token);
            proof {
                assert(strings_view(tokens@) =~= before + seq![
                    first_word(chars@, i as int, end as int),
                ]);
            }
        }
        proof {
            lemma_line_end_bounds(chars@, i as int);
            let rest = if end < n {
                tokens_from(chars@, end + 1)
            } else {
                Seq::empty()
            };
            assert(strings_view(tokens@) + rest =~= token_lines(chars@));
        }
        if end < n {
            i = end + 1;
        } else {
            i = n;
        }
    }
    proof {
        assert(strings_view(tokens@) + Seq::<Seq<char>>::empty() =~= strings_view(tokens@));
    }
    tokens
}

/// The token that stands for id `id`: the token at that place of the table,
/// or the table's last token where the id is outside the table.
pub open spec fn token_at(tokens: Seq<Seq<char>>, id: int) -> Seq<char> {
    if 0 <= id < tokens.len() {
        tokens[id]
    } else {
        tokens.last()
    }
}

/// The tokens that stand for `ids`, in order.
pub open spec fn ids_to_tokens(tokens: Seq<Seq<char>>, ids: Seq<usize>) -> Seq<Seq<char>> {
    Seq::new(ids.len(), |k: int| token_at(tokens, ids[k] as int))
}

/// The first place of `token` in the table; the table's length where it
/// does not occur.
pub open spec fn first_place(tokens: Seq<Seq<char>>, token: Seq<char>) -> int
    decreases tokens.len(),
{
    if tokens.len() == 0 {
        0
    } else {
        let place = first_place(tokens.drop_last(), token);
        if place < tokens.len() - 1 {
            place
        } else if tokens.last() == token {
            tokens.len() - 1
        } else {
            tokens.len() as int
        }
    }
}

/// The id that stands for `token`: its first place in the table, or the
/// place of the table's last token where it does not occur.
pub open spec fn token_id(tokens: Seq<Seq<char>>, token: Seq<char>) -> int {
    let place = first_place(tokens, token);
    if place < tokens.len() {
        place
    } else {
        tokens.len() - 1
    }
}

/// The ids that stand for `names`, in order.
pub open spec fn tokens_to_ids(tokens: Seq<Seq<char>>, names: Seq<Seq<char>>) -> Seq<int> {
    Seq::new(names.len(), |k: int| token_id(tokens, names[k]))
}

/// The first place of a token is the least index that holds it.
pub proof fn lemma_first_place(tokens: Seq<Seq<char>>, token: Seq<char>)
    ensures
        0 <= first_place(tokens, token) <= tokens.len(),
        first_place(tokens, token) < tokens.len() ==> tokens[first_place(tokens, token)] == token,
        forall|j: int| 0 <= j < first_place(tokens, token) ==> tokens[j] != token,
    decreases tokens.len(),
{
    if tokens.len() > 0 {
        lemma_first_place(tokens.drop_last(), token);
        let place = first_place(tokens.drop_last(), token);
        assert forall|j: int| 0 <= j < first_place(tokens, token) implies tokens[j] != token by {
            if j < tokens.len() - 1 {
                assert(tokens.drop_last()[j] == tokens[j]);
            }
        }
        if place < tokens.len() - 1 {
            assert(tokens.drop_last()[place] == tokens[place]);
        }
    }
}

/// An id of the table whose token occurs at no earlier place comes back
/// from its token.
pub proof fn lemma_id_token_id(tokens: Seq<Seq<char>>, id: int)
    requires
        0 <= id < tokens.len(),
        forall|j: int| 0 <= j < id ==> tokens[j] != tokens[id],
    ensures
        token_id(tokens, token_at(tokens, id)) == id,
{
    lemma_first_place(tokens, tokens[id]);
}

/// An id of the table whose token already occurs at an earlier place does
/// not come back from its token.
pub proof fn lemma_id_token_id_repeated(tokens: Seq<Seq<char>>, id: int, earlier: int)
    requires
        0 <= earlier < id < tokens.len(),
        tokens[earlier] == tokens[id],
    ensures
        token_id(tokens, token_at(tokens, id)) != id,
{
    lemma_first_place(tokens, tokens[id]);
}

/// Ids to tokens and back is the identity on the ids of the table, for a
/// table in which the token of each of these ids occurs at no earlier place.
pub proof fn lemma_ids_tokens_ids(tokens: Seq<Seq<char>>, ids: Seq<usize>)
    requires
        forall|k: int| 0 <= k < ids.len() ==> (#[trigger] ids[k]) < tokens.len(),
        forall|k: int, j: int|
            0 <= k < ids.len() && 0 <= j < ids[k] ==> #[trigger] tokens[j] != tokens[(
            #[trigger] ids[k]) as int],
    ensures
        tokens_to_ids(tokens, ids_to_tokens(tokens, ids)) == Seq::new(
            ids.len(),
            |k: int| ids[k] as int,
        ),
{
    let back = tokens_to_ids(tokens, ids_to_tokens(tokens, ids));
    assert forall|k: int| 0 <= k < ids.len() implies back[k] == ids[k] as int by {
        lemma_id_token_id(tokens, ids[k] as int);
    }
    assert(back =~= Seq::new(ids.len(), |k: int| ids[k] as int));
}

/// Why a token table could not be made.
#[derive(Debug, Clone, Copy, PartialEq, Eq, Structural)]
pub enum TokenError {
    /// The text holds no token.
    NoTokens,
}

/// Maps token ids to tokens and back. An id outside the table stands for the
/// unknown token, which is the table's last entry.
#[derive(Debug)]
pub struct TokenIdConverter {
    token_list: Vec<String>,
    unk_symbol: String,
}

impl View for TokenIdConverter {
    type V = Seq<Seq<char>>;

    /// The table: the token of every id.
    closed spec fn view(&self) -> Seq<Seq<char>> {
        strings_view(self.token_list@)
    }
}

impl TokenIdConverter {
    /// The table is not empty and the unknown token is its last entry.
    pub closed spec fn wf(&self) -> bool {
        &&& self.token_list@.len() > 0
        &&& self.unk_symbol@ == self.token_list@.last()@
    }

    /// A converter over the given table.
    pub fn new(token_list: Vec<String>) -> (converter: Self)
        requires
            token_list@.len() > 0,
        ensures
            converter.wf(),
            converter@ == strings_view(token_list@),
    {
        let unk_symbol = token_list[token_list.len() - 1].clone();
        Self { token_list, unk_symbol }
    }

    /// Number of tokens in the table.
    pub fn len(&self) -> (n: usize)
        ensures
            n == self@.len(),
    {
        self.token_list.len()
    }

    /// The tokens that stand for `integers`, in order.
    pub fn ids2tokens(&self, integers: &[usize]) -> (tokens: Vec<String>)
        requires
            self.wf(),
        ensures
            strings_view(tokens@) == ids_to_tokens(self@, integers@),
    {
        let mut tokens: Vec<String> = Vec::new();
        let mut k: usize = 0;
        while k < integers.len()
            invariant
                self.wf(),
                k <= integers@.len(),
                tokens@.len() == k,
                forall|j: int| 0 <= j < k ==> (#[trigger] tokens@[j])@ == token_at(self@, integers@[j] as int),
            decreases integers@.len() - k,
        {
            let id = integers[k];
            if id < self.token_list.len() {
                tokens.push(self.token_list[id].clone());
            } else {
                tokens.push(self.unk_symbol.clone());
            }
            k = k + 1;
        }
        proof {
            assert(strings_view(tokens@) =~= ids_to_tokens(self@, integers@));
        }
        tokens
    }

    /// The id that stands for `token`: its first place in the table, or the
    /// id of the unknown token.
    pub fn token2id(&self, token: &String) -> (id: usize)
        requires
            self.wf(),
        ensures
            id == token_id(self@, token@),
    {
        let n = self.token_list.len();
        let mut j: usize = 0;
        proof {
            lemma_first_place(self@, token@);
        }
        while j < n
            invariant
                n == self.token_list@.len(),
                j <= n,
                forall|i: int| 0 <= i < j ==> (#[trigger] self@[i]) != token@,
                j <= first_place(self@, token@),
                first_place(self@, token@) <= n,
                first_place(self@, token@) < n ==> self@[first_place(self@, token@)] == token@,
            decreases n - j,
        {
            if self.token_list[j] == *token {
                proof {
                    assert(self@[j as int] == token@);
                    lemma_first_place(self@, token@);
                }
                return j;
            }
            assert(self@[j as int] != token@);
            j = j + 1;
        }
        n - 1
    }

    /// The ids that stand for `tokens`, in order.
    pub fn tokens2ids(&self, tokens: &Vec<String>) -> (ids: Vec<usize>)
        requires
            self.wf(),
        ensures
            ids@.len() == tokens@.len(),
            forall|k: int|
                0 <= k < tokens@.len() ==> (#[trigger] ids@[k]) as int == token_id(
                    self@,
                    tokens@[k]@,
                ),
    {
        let mut ids: Vec<usize> = Vec::new();
        let mut k: usize = 0;
        while k < tokens.len()
            invariant
                self.wf(),
                k <= tokens@.len(),
                ids@.len() == k,
                forall|j: int|
                    0 <= j < k ==> (#[trigger] ids@[j]) as int == token_id(self@, tokens@[j]@),
            decreases tokens@.len() - k,
        {
            ids.push(self.token2id(&tokens[k]));
            k = k + 1;
        }
        ids
    }
}

/// Makes the converter of a token file from the file's text. A text without
/// any token has no unknown token and is refused.
pub fn read_token(text: &str) -> (converter: Result<TokenIdConverter, TokenError>)
    ensures
        token_lines(text@).len() > 0 ==> converter is Ok && converter->Ok_0.wf()
            && converter->Ok_0@ == token_lines(text@),
        token_lines(text@).len() == 0 ==> converter == Err::<TokenIdConverter, TokenError>(
            TokenError::NoTokens,
        ),
{
    let token_list = parse_tokens(text);
    if token_list.len() == 0 {
        Err(TokenError::NoTokens)
    } else {
        Ok(TokenIdConverter::new(token_list))
    }
}

/// All strings joined in order, with nothing between them.
pub fn join(parts: &Vec<String>) -> (joined: String)
    ensures
        joined@ == crate::seqs::concat_all(strings_view(parts@)),
{
    let mut joined = String::new();
    let mut k: usize = 0;
    proof {
        assert(strings_view(parts@).take(0) =~= Seq::<Seq<char>>::empty());
    }
    while k < parts.len()
        invariant
            k <= parts@.len(),
            joined@ == crate::seqs::concat_all(strings_view(parts@).take(k as int)),
        decreases parts@.len() - k,
    {
        joined.append(parts[k].as_str());
        k = k + 1;
        proof {
            assert(strings_view(parts@).take(k as int).drop_last() =~= strings_view(parts@).take(
                k - 1,
            ));
        }
    }
    proof {
        assert(strings_view(parts@).take(k as int) =~= strings_view(parts@));
    }
    joined
}

} // verus!
