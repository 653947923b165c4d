//! Tokenizers: between text and the token ids that a model works on.

use std::collections::HashMap;
use vstd::prelude::*;

verus! {

/// A tokenizer gives every character it knows a token, and every token a
/// character.
///
/// An implementation outside this crate keeps the default specification
/// functions, which leave open what it knows and which tokens it gives:
/// each is some function of the tokenizer and its argument.
pub trait Tokenizer {
    /// Whether the character can be tokenized.
    open spec fn knows(&self, ch: char) -> bool {
        (arbitrary::<spec_fn(&Self, char) -> bool>())(self, ch)
    }

    /// The token of a character.
    open spec fn token_of(&self, ch: char) -> usize {
        (arbitrary::<spec_fn(&Self, char) -> usize>())(self, ch)
    }

    /// Whether the token stands for a character.
    open spec fn is_token(&self, token: usize) -> bool {
        (arbitrary::<spec_fn(&Self, usize) -> bool>())(self, token)
    }

    /// The character of a token.
    open spec fn char_of(&self, token: usize) -> char {
        (arbitrary::<spec_fn(&Self, usize) -> char>())(self, token)
    }

    /// The size of the vocabulary.
    open spec fn size(&self) -> usize {
        (arbitrary::<spec_fn(&Self) -> usize>())(self)
    }

    fn vocab_size(&self) -> (r: usize)
        ensures
            r == self.size(),
    ;

    /// The tokens of the characters of a text, in their order.
    fn tokenize(&self, string: &str) -> (r: Vec<usize>)
        requires
            forall|i: int| 0 <= i < string@.len() ==> self.knows(#[trigger] string@[i]),
        ensures
            r@.len() == string@.len(),
            forall|i: int| 0 <= i < r@.len() ==> #[trigger] r@[i] == self.token_of(string@[i]),
    ;

    /// The text made of the characters of the tokens, in their order.
    fn untokenize(&self, tokens: &[usize]) -> (r: String)
        requires
            forall|i: int| 0 <= i < tokens@.len() ==> self.is_token(#[trigger] tokens@[i]),
        ensures
            r@.len() == tokens@.len(),
            forall|i: int| 0 <= i < r@.len() ==> #[trigger] r@[i] == self.char_of(tokens@[i]),
    ;
}

/// `String::push`: the string grows by the one character at its end.
#[verifier::external_body]
fn push_char(s: &mut String, ch: char)
    ensures
        final(s)@ == old(s)@.push(ch),
{
    s.push(ch);
}

/// Characters in ascending order have codes in ascending order.
pub proof fn lemma_code_order(a: char, b: char)
    requires
        a < b,
    ensures
        (a as u32) < (b as u32),
{
}

/// Characters with one code are one character.
pub proof fn lemma_code_same(a: char, b: char)
    requires
        a as u32 == b as u32,
    ensures
        a == b,
{
    vstd::utf8::char_u32_cast(a, a as u32);
    vstd::utf8::char_u32_cast(b, b as u32);
}

/// Strictly ascending: sorted, and nothing twice.
pub open spec fn ascending(chars: Seq<char>) -> bool {
    forall|a: int, b: int| 0 <= a < b < chars.len() ==> chars[a] < chars[b]
}

/// Where `ch` stands, or would stand, in an ascending list.
fn position(chars: &Vec<char>, ch: char) -> (p: usize)
    requires
        ascending(chars@),
    ensures
        p <= chars@.len(),
        forall|i: int| 0 <= i < p ==> chars@[i] < ch,
        forall|i: int| p <= i < chars@.len() ==> chars@[i] >= ch,
{
    let n: usize = chars.len();
    let mut p: usize = 0;
    while p < n && chars[p] < ch
        invariant
            p <= n,
            n == chars@.len(),
            forall|i: int| 0 <= i < p ==> chars@[i] < ch,
        decreases n - p,
    {
        p += 1;
    }
    proof {
        if p < n {
            assert forall|i: int| p <= i < chars@.len() implies chars@[i] >= ch by {
                if i > p {
                    assert(chars@[p as int] < chars@[i]);
                }
            }
        }
    }
    p
}

/// The distinct characters of a text, in ascending order.
pub fn alphabet(dataset: &str) -> (chars: Vec<char>)
    ensures
        ascending(chars@),
        forall|c: char| chars@.contains(c) <==> dataset@.contains(c),
{
    let mut chars: Vec<char> = Vec::new();
    for ch in it: dataset.chars()
        invariant
            it.seq() == dataset@,
            ascending(chars@),
            forall|c: char| chars@.contains(c) <==> dataset@.take(it.index() as int).contains(c),
    {
        let ghost seen = dataset@.take(it.index() as int);
        let ghost next = dataset@.take(it.index() + 1);
        let ghost before = chars@;
        proof {
            assert(next =~= seen.push(ch));
            assert forall|c: char| next.contains(c) <==> (seen.contains(c) || c == ch) by {
                if next.contains(c) {
                    let i = choose|i: int| 0 <= i < next.len() && next[i] == c;
                    if i < seen.len() {
                        assert(seen[i] == c);
                    }
                }
                if seen.contains(c) {
                    let i = choose|i: int| 0 <= i < seen.len() && seen[i] == c;
                    assert(next[i] == c);
                }
                if c == ch {
                    assert(next[next.len() - 1] == c);
                }
            }
        }
        let p: usize = position(&chars, ch);
        if p == chars.len() || chars[p] != ch {
            chars.insert(p, ch);
            proof {
                let after = chars@;
                assert(after == before.insert(p as int, ch));
                assert forall|a: int, b: int| 0 <= a < b < after.len() implies after[a]
                    < after[b] by {
                    if a < p && b > p {
                        assert(before[a] < before[b - 1]);
                    } else if a > p {
                        assert(before[a - 1] < before[b - 1]);
                    } else if b < p {
                        assert(before[a] < before[b]);
                    }
                }
                assert forall|c: char| after.contains(c) <==> (before.contains(c) || c == ch) by {
                    if after.contains(c) {
                        let i = choose|i: int| 0 <= i < after.len() && after[i] == c;
                        if i < p {
                            assert(before[i] == c);
                        } else if i > p {
                            assert(before[i - 1] == c);
                        }
                    }
                    if before.contains(c) {
                        let i = choose|i: int| 0 <= i < before.len() && before[i] == c;
                        if i < p {
                            assert(after[i] == c);
                        } else {
                            assert(after[i + 1] == c);
                        }
                    }
                    if c == ch {
                        assert(after[p as int] == c);
                    }
                }
            }
        } else {
            proof {
                assert(before[p as int] == ch);
                assert(before.contains(ch));
            }
        }
    }
    proof {
        assert(dataset@.take(dataset@.len() as int) =~= dataset@);
    }
    chars
}

/// A tokenizer whose vocabulary is the set of characters of a text: the
/// characters in ascending order get the tokens 0, 1, 2 and so on.
pub struct SimpleTokenizer {
    vocab_size: usize,
    ch_to_int: HashMap<u32, usize>,
    int_to_ch: HashMap<usize, char>,
}

impl SimpleTokenizer {
    #[verifier::type_invariant]
    spec fn well_formed(self) -> bool {
        &&& forall|t: usize| self.int_to_ch@.contains_key(t) <==> t < self.vocab_size
        &&& forall|a: usize, b: usize|
            a < b < self.vocab_size ==> #[trigger] self.int_to_ch@[a] < #[trigger] self.int_to_ch@[b]
        &&& forall|t: usize|
            t < self.vocab_size ==> self.ch_to_int@.contains_key(
                #[trigger] self.int_to_ch@[t] as u32,
            ) && self.ch_to_int@[self.int_to_ch@[t] as u32] == t
        &&& forall|c: u32| #[trigger]
            self.ch_to_int@.contains_key(c) ==> self.ch_to_int@[c] < self.vocab_size
                && self.int_to_ch@[self.ch_to_int@[c]] as u32 == c
    }

    /// The vocabulary: the character of each token, in the order of the
    /// tokens.
    pub closed spec fn vocab(&self) -> Seq<char> {
        Seq::new(self.vocab_size as nat, |t: int| self.int_to_ch@[t as usize])
    }

    /// The tokenizer for the characters of a text.
    pub fn new(dataset: &str) -> (r: Self)
        ensures
            ascending(r.vocab()),
            forall|c: char| r.vocab().contains(c) <==> dataset@.contains(c),
    {
        broadcast use vstd::std_specs::hash::group_hash_axioms;

        let chars = alphabet(dataset);
        let n: usize = chars.len();
        let mut int_to_ch: HashMap<usize, char> = HashMap::new();
        let mut ch_to_int: HashMap<u32, usize> = HashMap::new();
        let mut i: usize = 0;
        while i < n
            invariant
                i <= n,
                n == chars@.len(),
                ascending(chars@),
                forall|t: usize| int_to_ch@.contains_key(t) <==> t < i,
                forall|t: usize| t < i ==> #[trigger] int_to_ch@[t] == chars@[t as int],
                forall|t: usize|
                    t < i ==> ch_to_int@.contains_key(#[trigger] chars@[t as int] as u32)
                        && ch_to_int@[chars@[t as int] as u32] == t,
                forall|c: u32| #[trigger]
                    ch_to_int@.contains_key(c) ==> ch_to_int@[c] < i
                        && chars@[ch_to_int@[c] as int] as u32 == c,
            decreases n - i,
        {
            let ch: char = chars[i];
            proof {
                assert forall|t: usize| t < i implies chars@[t as int] as u32 != ch as u32 by {
                    lemma_code_order(chars@[t as int], chars@[i as int]);
                }
            }
            int_to_ch.insert(i, ch);
            ch_to_int.insert(ch as u32, i);
            i += 1;
        }
        let r = SimpleTokenizer { vocab_size: n, ch_to_int, int_to_ch };
        proof {
            assert(r.vocab() =~= chars@);
        }
        r
    }
}

impl Tokenizer for SimpleTokenizer {
    open spec fn knows(&self, ch: char) -> bool {
        self.vocab().contains(ch)
    }

    open spec fn token_of(&self, ch: char) -> usize {
        self.vocab().index_of(ch) as usize
    }

    open spec fn is_token(&self, token: usize) -> bool {
        token < self.vocab().len()
    }

    open spec fn char_of(&self, token: usize) -> char {
        self.vocab()[token as int]
    }

    open spec fn size(&self) -> usize {
        self.vocab().len() as usize
    }

    fn vocab_size(&self) -> (r: usize) {
        self.vocab_size
    }

    /// Every token it gives stands for the character it was given for, so
    /// the tokens of a text can be turned back into the text.
    fn tokenize(&self, string: &str) -> (r: Vec<usize>)
        ensures
            forall|i: int|
                0 <= i < r@.len() ==> self.is_token(#[trigger] r@[i]) && self.char_of(r@[i])
                    == string@[i],
    {
        let mut out: Vec<usize> = Vec::new();
        for ch in it: string.chars()
            invariant
                it.seq() == string@,
                forall|i: int| 0 <= i < string@.len() ==> self.knows(#[trigger] string@[i]),
                out@.len() == it.index(),
                forall|i: int| 0 <= i < out@.len() ==> #[trigger] out@[i] == self.token_of(string@[i]),
                forall|i: int|
                    0 <= i < out@.len() ==> self.is_token(#[trigger] out@[i]) && self.char_of(
                        out@[i],
                    ) == string@[i],
        {
            assert(self.knows(string@[it.index() as int]));
            let token: usize = match self.token(ch) {
                Some(t) => t,
                None => 0,
            };
            out.push(token);
        }
        out
    }

    fn untokenize(&self, tokens: &[usize]) -> (r: String) {
        broadcast use vstd::std_specs::hash::group_hash_axioms;

        proof {
            use_type_invariant(self);
        }
        let mut out: String = String::new();
        let n: usize = tokens.len();
        let mut i: usize = 0;
        while i < n
            invariant
                i <= n,
                n == tokens@.len(),
                forall|k: int| 0 <= k < tokens@.len() ==> self.is_token(#[trigger] tokens@[k]),
                self.well_formed(),
                out@.len() == i,
                forall|k: int| 0 <= k < i ==> #[trigger] out@[k] == self.char_of(tokens@[k]),
            decreases n - i,
        {
            assert(self.is_token(tokens@[i as int]));
            let ch: char = match self.character(tokens[i]) {
                Some(c) => c,
                None => ' ',
            };
            push_char(&mut out, ch);
            i += 1;
        }
        out
    }
}

impl SimpleTokenizer {
    /// The token of a character, if the vocabulary holds it.
    pub fn token(&self, ch: char) -> (r: Option<usize>)
        ensures
            match r {
                Some(t) => self.knows(ch) && t == self.token_of(ch) && self.is_token(t)
                    && self.char_of(t) == ch,
                None => !self.knows(ch),
            },
    {
        broadcast use vstd::std_specs::hash::group_hash_axioms;

        proof {
            use_type_invariant(self);
        }
        match self.ch_to_int.get(&(ch as u32)) {
            Some(t) => {
                proof {
                    self.lemma_index(ch, *t);
                }
                Some(*t)
            },
            None => {
                proof {
                    if self.vocab().contains(ch) {
                        let t = choose|t: int| 0 <= t < self.vocab().len() && self.vocab()[t] == ch;
                        assert(self.ch_to_int@.contains_key(self.int_to_ch@[t as usize] as u32));
                    }
                }
                None
            },
        }
    }

    /// The character of a token, if the token is one of the vocabulary.
    pub fn character(&self, token: usize) -> (r: Option<char>)
        ensures
            match r {
                Some(ch) => self.is_token(token) && ch == self.char_of(token),
                None => !self.is_token(token),
            },
    {
        broadcast use vstd::std_specs::hash::group_hash_axioms;

        proof {
            use_type_invariant(self);
        }
        match self.int_to_ch.get(&token) {
            Some(ch) => Some(*ch),
            None => None,
        }
    }

    /// A character of the vocabulary stands at the place of its token, and
    /// nowhere else.
    proof fn lemma_index(&self, ch: char, token: usize)
        requires
            self.well_formed(),
            self.ch_to_int@.contains_key(ch as u32),
            self.ch_to_int@[ch as u32] == token,
        ensures
            self.vocab().contains(ch),
            self.vocab().index_of(ch) == token,
            token < self.vocab().len(),
    {
        let v = self.vocab();
        lemma_code_same(self.int_to_ch@[token], ch);
        assert(v[token as int] == ch);
        let i = v.index_of(ch);
        assert(0 <= i < v.len() && v[i] == ch);
        if i < token {
            assert(self.int_to_ch@[i as usize] < self.int_to_ch@[token]);
        } else if token < i {
            assert(self.int_to_ch@[token] < self.int_to_ch@[i as usize]);
        }
    }
}

/// A line of a vocabulary file: a token, a tab, and the token's score.
/// The line is split at its first tab; a line without a tab is no entry.
pub fn split_entry(line: &str) -> (r: Option<(String, String)>)
    ensures
        match r {
            Some(entry) => !entry.0@.contains('\t') && line@ == entry.0@.push('\t') + entry.1@,
            None => !line@.contains('\t'),
        },
{
    let mut token: String = String::new();
    let mut score: String = String::new();
    let mut found: bool = false;
    for ch in it: line.chars()
        invariant
            it.seq() == line@,
            !token@.contains('\t'),
            !found ==> token@ == line@.take(it.index() as int) && score@.len() == 0,
            found ==> token@.push('\t') + score@ == line@.take(it.index() as int),
    {
        let ghost seen = line@.take(it.index() as int);
        let ghost next = line@.take(it.index() + 1);
        let ghost before = token@;
        proof {
            assert(next =~= seen.push(ch));
        }
        if found {
            push_char(&mut score, ch);
            proof {
                assert(token@.push('\t') + score@ =~= next);
            }
        } else if ch == '\t' {
            found = true;
            proof {
                assert(token@.push('\t') + score@ =~= next);
            }
        } else {
            push_char(&mut token, ch);
            proof {
                assert forall|i: int| 0 <= i < token@.len() implies token@[i] != '\t' by {
                    if i < before.len() {
                        assert(before.contains(before[i]));
                    }
                }
            }
        }
    }
    proof {
        assert(line@.take(line@.len() as int) =~= line@);
    }
    if found {
        Some((token, score))
    } else {
        None
    }
}

/// The tokenizer of single bytes: a character's token is its code. Its
/// vocabulary has the size of ASCII; it takes every character whose code
/// fits one byte.
pub struct AsciiTokenizer;

impl Tokenizer for AsciiTokenizer {
    open spec fn knows(&self, ch: char) -> bool {
        ch as u32 <= 0xff
    }

    open spec fn token_of(&self, ch: char) -> usize {
        ch as u32 as usize
    }

    open spec fn is_token(&self, token: usize) -> bool {
        token <= 0xff
    }

    open spec fn char_of(&self, token: usize) -> char {
        token as u8 as char
    }

    open spec fn size(&self) -> usize {
        128
    }

    fn vocab_size(&self) -> (r: usize) {
        128
    }

    /// Every token it gives stands for the character it was given for, so
    /// the tokens of a text can be turned back into the text.
    fn tokenize(&self, string: &str) -> (r: Vec<usize>)
        ensures
            forall|i: int|
                0 <= i < r@.len() ==> self.is_token(#[trigger] r@[i]) && self.char_of(r@[i])
                    == string@[i],
    {
        let mut out: Vec<usize> = Vec::new();
        for ch in it: string.chars()
            invariant
                it.seq() == string@,
                forall|i: int| 0 <= i < string@.len() ==> self.knows(#[trigger] string@[i]),
                out@.len() == it.index(),
                forall|i: int| 0 <= i < out@.len() ==> #[trigger] out@[i] == self.token_of(string@[i]),
                forall|i: int|
                    0 <= i < out@.len() ==> self.is_token(#[trigger] out@[i]) && self.char_of(
                        out@[i],
                    ) == string@[i],
        {
            assert(self.knows(string@[it.index() as int]));
            proof {
                vstd::utf8::char_u32_cast(ch, ch as u32);
                assert((ch as u32 as usize) as u8 as char == ch);
            }
            out.push(ch as u32 as usize);
        }
        out
    }

    fn untokenize(&self, tokens: &[usize]) -> (r: String) {
        let mut out: String = String::new();
        let n: usize = tokens.len();
        let mut i: usize = 0;
        while i < n
            invariant
                i <= n,
                n == tokens@.len(),
                forall|k: int| 0 <= k < tokens@.len() ==> self.is_token(#[trigger] tokens@[k]),
                out@.len() == i,
                forall|k: int| 0 <= k < i ==> #[trigger] out@[k] == self.char_of(tokens@[k]),
            decreases n - i,
        {
            assert(self.is_token(tokens@[i as int]));
            push_char(&mut out, tokens[i] as u8 as char);
            i += 1;
        }
        out
    }
}

} // verus!
