//! The scanner: a cheap cursor over the bytes of the source text, and the
//! lexer's errors.

use crate::lex::{DecoratedToken, DecoratedTokenView};
use crate::tokens::{Token, TokenView};
use std::sync::Arc;
use vstd::prelude::*;
use vstd::slice::slice_subrange;
use vstd::std_specs::convert::FromSpecImpl;
use vstd::string::StrSliceExecFns;
use vstd::string::StringExecFns;
use vstd::string::StringSliceAdditionalSpecFns;

verus! {

/// The number of bytes that `s` takes in UTF-8.
pub open spec fn utf8_len(s: Seq<char>) -> nat {
    vstd::utf8::encode_utf8(s).len()
}

/// The number of bytes that `c` takes in UTF-8.
pub open spec fn utf8_width(c: char) -> nat {
    vstd::utf8::encode_scalar(c as u32).len()
}

/// One more character adds its own bytes.
pub proof fn lemma_utf8_len_push(s: Seq<char>, c: char)
    ensures
        utf8_len(s.push(c)) == utf8_len(s) + utf8_width(c),
    decreases s.len(),
{
    if s.len() == 0 {
        assert(s.push(c).drop_first() =~= Seq::<char>::empty());
        assert(utf8_len(Seq::<char>::empty()) == 0);
    } else {
        lemma_utf8_len_push(s.drop_first(), c);
        assert(s.push(c).drop_first() =~= s.drop_first().push(c));
    }
}

/// The bytes of two texts, one behind the other, are the bytes of both.
pub proof fn lemma_utf8_len_concat(a: Seq<char>, b: Seq<char>)
    ensures
        utf8_len(a + b) == utf8_len(a) + utf8_len(b),
    decreases b.len(),
{
    if b.len() == 0 {
        assert(a + b =~= a);
    } else {
        lemma_utf8_len_concat(a, b.drop_last());
        lemma_utf8_len_push(a + b.drop_last(), b.last());
        lemma_utf8_len_push(b.drop_last(), b.last());
        assert(b.drop_last().push(b.last()) =~= b);
        assert((a + b.drop_last()).push(b.last()) =~= a + b);
    }
}

/// The number of bytes of a character's UTF-8 encoding.
pub fn char_width(c: char) -> (w: usize)
    ensures
        w == utf8_width(c),
{
    let v = c as u32;
    if v <= 0x7F {
        1
    } else if v <= 0x7FF {
        2
    } else if v <= 0xFFFF {
        3
    } else {
        4
    }
}

/// Bytes that are the UTF-8 encoding of a text.
pub open spec fn is_text(bytes: Seq<u8>) -> bool {
    vstd::utf8::valid_utf8(bytes)
}

/// The text that bytes encode in UTF-8.
pub open spec fn text_of(bytes: Seq<u8>) -> Seq<char> {
    vstd::utf8::decode_utf8(bytes)
}

/// The bytes of a text of ASCII characters are its characters, one byte to
/// the character.
pub proof fn lemma_ascii_bytes(s: Seq<char>)
    requires
        vstd::utf8::is_ascii_chars(s),
    ensures
        vstd::utf8::encode_utf8(s) == Seq::new(s.len(), |i: int| s[i] as u8),
{
    vstd::utf8::is_ascii_chars_encode_utf8(s);
    assert(vstd::utf8::encode_utf8(s) =~= Seq::new(s.len(), |i: int| s[i] as u8));
}

/// The bytes of a text are a text, and they encode that text.
pub proof fn lemma_bytes_of_text(s: Seq<char>)
    ensures
        is_text(vstd::utf8::encode_utf8(s)),
        text_of(vstd::utf8::encode_utf8(s)) == s,
{
    vstd::utf8::encode_utf8_valid_utf8(s);
    vstd::utf8::encode_utf8_decode_utf8(s);
}

/// The ASCII characters that bytes below 128 stand for.
pub open spec fn ascii_of(bytes: Seq<u8>) -> Seq<char> {
    Seq::new(bytes.len(), |i: int| bytes[i] as char)
}

/// Bytes below 128 are a text, one character to the byte.
pub proof fn lemma_ascii_is_text(bytes: Seq<u8>)
    requires
        forall|i: int| 0 <= i < bytes.len() ==> (#[trigger] bytes[i]) < 128,
    ensures
        is_text(bytes),
        text_of(bytes) == ascii_of(bytes),
{
    let chars = ascii_of(bytes);
    assert(vstd::utf8::is_ascii_chars(chars));
    vstd::utf8::is_ascii_chars_encode_utf8(chars);
    assert(vstd::utf8::encode_utf8(chars) =~= bytes);
    lemma_bytes_of_text(chars);
}

/// A text can be cut at its start, at its end, and before and behind each
/// of its ASCII bytes: both parts are texts.
pub proof fn lemma_cut_text(bytes: Seq<u8>, k: int)
    requires
        is_text(bytes),
        0 <= k <= bytes.len(),
        k == 0 || k == bytes.len() || bytes[k] < 128 || bytes[k - 1] < 128,
    ensures
        is_text(bytes.take(k)),
        is_text(bytes.skip(k)),
{
    let n = bytes.len() as int;
    assert(bytes.take(k) =~= bytes.subrange(0, k));
    assert(bytes.skip(k) =~= bytes.subrange(k, n));
    if k == 0 || k == n {
        vstd::utf8::is_char_boundary_start_end_of_seq(bytes);
        vstd::utf8::valid_utf8_split(bytes, k);
    } else if bytes[k] < 128 {
        vstd::utf8::is_char_boundary_iff_not_is_continuation_byte(bytes, k);
        vstd::utf8::valid_utf8_split(bytes, k);
    } else {
        vstd::utf8::is_char_boundary_iff_not_is_continuation_byte(bytes, k - 1);
        vstd::utf8::valid_utf8_split(bytes, k - 1);
        let head = bytes.subrange(0, k - 1);
        let tail = bytes.subrange(k - 1, n);
        assert(tail[0] == bytes[k - 1]);
        assert(vstd::utf8::length_of_first_scalar(tail) == 1);
        assert(vstd::utf8::pop_first_scalar(tail) =~= bytes.skip(k));
        assert(vstd::utf8::valid_utf8(tail));
        assert(vstd::utf8::valid_utf8(vstd::utf8::pop_first_scalar(tail)));
        let one = seq![bytes[k - 1]];
        lemma_ascii_is_text(one);
        vstd::utf8::valid_utf8_concat(head, one);
        assert(head + one =~= bytes.take(k));
    }
}

/// No bytes are the empty text, and other texts are not empty.
pub proof fn lemma_text_is_empty(bytes: Seq<u8>)
    requires
        is_text(bytes),
    ensures
        (text_of(bytes).len() == 0) == (bytes.len() == 0),
{
    if bytes.len() > 0 {
        let first = seq![vstd::utf8::decode_first_scalar(bytes) as char];
        assert(text_of(bytes) == first + vstd::utf8::decode_utf8(
            vstd::utf8::pop_first_scalar(bytes),
        ));
        assert(first.len() == 1);
    }
}

/// Two texts, one behind the other, are a text.
pub proof fn lemma_join_texts(a: Seq<u8>, b: Seq<u8>)
    requires
        is_text(a),
        is_text(b),
    ensures
        is_text(a + b),
{
    vstd::utf8::valid_utf8_concat(a, b);
}

/// `core::str::Utf8Error`, the reason for which bytes are no text.
#[verifier::external_type_specification]
#[verifier::external_body]
pub struct ExUtf8Error(core::str::Utf8Error);

/// `str::from_utf8`: bytes that are valid UTF-8 are handed back as the
/// string that they encode; all other bytes are refused.
#[verifier::external_body]
fn str_from_utf8(bytes: &[u8]) -> (r: Result<&str, core::str::Utf8Error>)
    ensures
        match r {
            Ok(s) => s.spec_bytes() == bytes@,
            Err(_) => !vstd::utf8::valid_utf8(bytes@),
        },
{
    std::str::from_utf8(bytes)
}

/// The text that `bytes` encode, if they encode one.
pub fn text_from_bytes(bytes: &[u8]) -> (r: Option<String>)
    ensures
        match r {
            Some(s) => is_text(bytes@) && s@ == text_of(bytes@),
            None => !is_text(bytes@),
        },
{
    match str_from_utf8(bytes) {
        Ok(s) => {
            proof {
                lemma_bytes_of_text(s@);
            }
            Some(String::from_str(s))
        },
        Err(_) => None,
    }
}

/// A second handle on a shared buffer. `Arc::clone` copies the pointer, not
/// the bytes: the new handle holds the same bytes.
#[verifier::external_body]
fn share(buffer: &Arc<Vec<u8>>) -> (r: Arc<Vec<u8>>)
    ensures
        r == *buffer,
{
    Arc::clone(buffer)
}

/// `String::push` appends one character.
pub assume_specification[ String::push ](s: &mut String, c: char)
    ensures
        final(s)@ == old(s)@.push(c),
;

/// The characters of `s`, in order.
pub fn chars_of(s: &str) -> (r: Vec<char>)
    ensures
        r@ == s@,
{
    let mut v: Vec<char> = Vec::new();
    for c in it: s.chars()
        invariant
            v@ == it.seq().take(it.index() as int),
    {
        v.push(c);
    }
    v
}

/// The lower-case form of a character, which may be more than one
/// character long.
pub uninterp spec fn lowercase_of(c: char) -> Seq<char>;

/// `char::to_lowercase`: the lower-case form depends on the character
/// alone.
#[verifier::external_body]
fn lowercase(c: char) -> (r: Vec<char>)
    ensures
        r@ == lowercase_of(c),
{
    c.to_lowercase().collect()
}

/// Whether two characters are the same but for their case.
fn same_letter(a: char, b: char) -> (r: bool)
    ensures
        r == (lowercase_of(a) == lowercase_of(b)),
{
    let x = lowercase(a);
    let y = lowercase(b);
    if x.len() != y.len() {
        return false;
    }
    let mut i: usize = 0;
    while i < x.len()
        invariant
            i <= x.len(),
            x.len() == y.len(),
            x@ == lowercase_of(a),
            y@ == lowercase_of(b),
            forall|j: int| 0 <= j < i ==> x@[j] == y@[j],
        decreases x.len() - i,
    {
        if x[i] != y[i] {
            return false;
        }
        i += 1;
    }
    proof {
        assert(x@ =~= y@);
    }
    true
}

/// How a text compares with a pattern that it should start with.
#[derive(Clone, Copy, Debug, PartialEq, Eq, Structural)]
pub enum CompareResult {
    /// The text starts with the pattern.
    Match,
    /// The text ends before the pattern does, and agrees with it so far.
    Incomplete,
    /// The text and the pattern differ.
    Mismatch,
}

/// `s` and `t` differ at position `i`, which both reach.
pub open spec fn differ_at(s: Seq<u8>, t: Seq<u8>, i: int) -> bool {
    0 <= i < s.len() && i < t.len() && s[i] != t[i]
}

/// How the bytes `s` compare with the pattern `t`.
pub open spec fn compare_model(s: Seq<u8>, t: Seq<u8>) -> CompareResult {
    if exists|i: int| differ_at(s, t, i) {
        CompareResult::Mismatch
    } else if s.len() >= t.len() {
        CompareResult::Match
    } else {
        CompareResult::Incomplete
    }
}

/// `s` and `t` differ at position `i`, which both reach, even when case
/// is ignored.
pub open spec fn differ_in_letter_at(s: Seq<char>, t: Seq<char>, i: int) -> bool {
    0 <= i < s.len() && i < t.len() && lowercase_of(s[i]) != lowercase_of(t[i])
}

/// How the text `s` compares with the pattern `t` when case is ignored.
pub open spec fn compare_no_case_model(s: Seq<char>, t: Seq<char>) -> CompareResult {
    if exists|i: int| differ_in_letter_at(s, t, i) {
        CompareResult::Mismatch
    } else if s.len() >= t.len() {
        CompareResult::Match
    } else {
        CompareResult::Incomplete
    }
}

/// `s` starts with `t`.
pub open spec fn starts_with(s: Seq<u8>, t: Seq<u8>) -> bool {
    t.len() <= s.len() && s.take(t.len() as int) == t
}

/// `starts_with` is the outcome `Match` of a comparison.
pub proof fn lemma_starts_with(s: Seq<u8>, t: Seq<u8>)
    ensures
        starts_with(s, t) <==> compare_model(s, t) == CompareResult::Match,
{
    if starts_with(s, t) {
        assert forall|i: int| !differ_at(s, t, i) by {
            if 0 <= i < t.len() {
                assert(s.take(t.len() as int)[i] == t[i]);
            }
        }
    }
    if compare_model(s, t) == CompareResult::Match {
        assert forall|i: int| 0 <= i < t.len() implies s.take(t.len() as int)[i] == t[i] by {
            assert(!differ_at(s, t, i));
        }
        assert(s.take(t.len() as int) =~= t);
    }
}

/// `t` stands in `s` at position `i`.
pub open spec fn occurs_at(s: Seq<u8>, t: Seq<u8>, i: int) -> bool {
    0 <= i && i + t.len() <= s.len() && s.subrange(i, i + t.len()) == t
}

/// `i` is the first position at which `t` stands in `s`.
pub open spec fn first_at(s: Seq<u8>, t: Seq<u8>, i: int) -> bool {
    occurs_at(s, t, i) && forall|j: int| 0 <= j < i ==> !occurs_at(s, t, j)
}

/// The first position at which `t` stands in `s`, if it stands in it at all.
pub open spec fn first_occurrence(s: Seq<u8>, t: Seq<u8>) -> Option<nat> {
    if exists|i: int| first_at(s, t, i) {
        Some((choose|i: int| first_at(s, t, i)) as nat)
    } else {
        None
    }
}

/// There is one first position at most, and `first_occurrence` is it.
pub proof fn lemma_first_occurrence(s: Seq<u8>, t: Seq<u8>, i: int)
    requires
        first_at(s, t, i),
    ensures
        first_occurrence(s, t) == Some(i as nat),
{
    let k = choose|k: int| first_at(s, t, k);
    if k < i {
        assert(!occurs_at(s, t, k));
    } else if i < k {
        assert(!occurs_at(s, t, i));
    }
}

/// Where `t` stands nowhere, there is no first position.
pub proof fn lemma_no_occurrence(s: Seq<u8>, t: Seq<u8>)
    requires
        forall|j: int| !occurs_at(s, t, j),
    ensures
        first_occurrence(s, t) is None,
{
}

/// A first position lies inside the text, with the whole pattern.
pub proof fn lemma_occurrence_bound(s: Seq<u8>, t: Seq<u8>)
    ensures
        first_occurrence(s, t) matches Some(k) ==> k + t.len() <= s.len() && s.subrange(
            k as int,
            (k + t.len()) as int,
        ) == t,
{
    if exists|i: int| first_at(s, t, i) {
        let i = choose|i: int| first_at(s, t, i);
        assert(occurs_at(s, t, i));
    }
}

/// A cursor over the source text: a shared, immutable buffer of bytes and
/// the part of it, from `offset` up to `limit`, that is still to be read.
/// Offsets count bytes. Copies of a scanner share the buffer.
#[derive(Debug)]
pub struct StringScanner {
    content: Arc<Vec<u8>>,
    offset: usize,
    limit: usize,
}

impl View for StringScanner {
    type V = Seq<u8>;

    /// The bytes that the scanner has still to read.
    open spec fn view(&self) -> Seq<u8> {
        self.source().subrange(self.start() as int, self.end() as int)
    }
}

impl StringScanner {
    /// The bytes of the whole buffer.
    pub closed spec fn source(&self) -> Seq<u8> {
        self.content@
    }

    /// The byte offset at which the scanner's part of the buffer starts.
    pub closed spec fn start(&self) -> nat {
        self.offset as nat
    }

    /// The byte offset at which the scanner's part of the buffer ends.
    pub closed spec fn end(&self) -> nat {
        self.limit as nat
    }

    /// The byte offset, in the source, of the next byte to read.
    pub closed spec fn spec_location(&self) -> usize {
        self.offset
    }

    /// The byte offset of the end of the source.
    pub closed spec fn spec_eof_idx(&self) -> usize {
        self.content@.len() as usize
    }

    /// The scanner's part lies inside the buffer, and its location is the
    /// offset of its start. Every scanner is so.
    #[verifier::type_invariant]
    pub open spec fn wf(&self) -> bool {
        &&& self.start() <= self.end() <= self.source().len() <= usize::MAX
        &&& self.spec_location() == self.start()
        &&& self.spec_eof_idx() == self.source().len()
    }

    /// `self` is what is left of `before` after its first `n` bytes.
    pub open spec fn follows(&self, before: StringScanner, n: nat) -> bool {
        &&& self.wf()
        &&& self.source() == before.source()
        &&& self.start() == before.start() + n
        &&& self.end() == before.end()
    }

    /// `self` is the first `n` bytes of `before`.
    pub open spec fn heads(&self, before: StringScanner, n: nat) -> bool {
        &&& self.wf()
        &&& self.source() == before.source()
        &&& self.start() == before.start()
        &&& self.end() == before.start() + n
    }

    /// What remains after `n` bytes is the view without them, and its
    /// location lies further on by `n`.
    pub proof fn lemma_follows(&self, before: StringScanner, n: nat)
        requires
            before.wf(),
            self.follows(before, n),
            n <= before@.len(),
        ensures
            self@ == before@.skip(n as int),
            self.spec_location() == before.spec_location() + n,
    {
        assert(self@ =~= before@.skip(n as int));
    }

    /// The bytes that are still to be read.
    fn bytes(&self) -> (r: &[u8])
        ensures
            r@ == self@,
    {
        proof {
            use_type_invariant(self);
        }
        slice_subrange(self.content.as_slice(), self.offset, self.limit)
    }

    /// The text that is still to be read, if the bytes that are still to
    /// be read are a text.
    pub fn to_text(&self) -> (r: Option<String>)
        ensures
            match r {
                Some(s) => is_text(self@) && s@ == text_of(self@),
                None => !is_text(self@),
            },
    {
        text_from_bytes(self.bytes())
    }

    /// The text that is still to be read, as a string of its own. The
    /// bytes that are still to be read must be a text: a part that cuts a
    /// character in two is none.
    pub fn as_str(&self) -> (r: String)
        requires
            is_text(self@),
        ensures
            r@ == text_of(self@),
    {
        match self.to_text() {
            Some(s) => s,
            None => String::new(),
        }
    }

    /// Whether nothing is left to read.
    pub fn is_empty(&self) -> (r: bool)
        ensures
            r == (self@.len() == 0),
    {
        proof {
            use_type_invariant(self);
        }
        if self.limit == 0 {
            return true;
        }
        self.offset == self.limit
    }

    /// The byte offset, in the source, of the next byte to read.
    #[verifier::when_used_as_spec(spec_location)]
    pub fn location(&self) -> (r: usize)
        ensures
            r == self.spec_location(),
    {
        self.offset
    }

    /// The byte offset of the end of the source.
    #[verifier::when_used_as_spec(spec_eof_idx)]
    pub fn eof_idx(&self) -> (r: usize)
        ensures
            r == self.spec_eof_idx(),
    {
        self.content.len()
    }

    /// How many bytes are still to be read.
    pub fn input_len(&self) -> (r: usize)
        ensures
            r == self@.len(),
    {
        proof {
            use_type_invariant(self);
        }
        self.limit - self.offset
    }

    /// The byte `index` places ahead, if the scanner reaches that far.
    pub fn byte_at(&self, index: usize) -> (r: Option<u8>)
        ensures
            r == if index < self@.len() {
                Some(self@[index as int])
            } else {
                None
            },
    {
        proof {
            use_type_invariant(self);
        }
        if index < self.limit - self.offset {
            Some(self.content[self.offset + index])
        } else {
            None
        }
    }

    /// Compares what is still to be read with the bytes `pattern`.
    pub fn compare_bytes(&self, pattern: &[u8]) -> (r: CompareResult)
        ensures
            r == compare_model(self@, pattern@),
            (r == CompareResult::Match) == starts_with(self@, pattern@),
    {
        proof {
            use_type_invariant(self);
        }
        let n = self.input_len();
        let mut i: usize = 0;
        while i < pattern.len() && i < n
            invariant
                self.wf(),
                n == self@.len(),
                forall|j: int| 0 <= j < i ==> !differ_at(self@, pattern@, j),
            decreases pattern.len() - i,
        {
            if self.content[self.offset + i] != pattern[i] {
                proof {
                    assert(differ_at(self@, pattern@, i as int));
                    lemma_starts_with(self@, pattern@);
                }
                return CompareResult::Mismatch;
            }
            i += 1;
        }
        proof {
            assert forall|j: int| !differ_at(self@, pattern@, j) by {
                if 0 <= j < i {
                    assert(!differ_at(self@, pattern@, j));
                }
            }
            lemma_starts_with(self@, pattern@);
        }
        if n >= pattern.len() {
            CompareResult::Match
        } else {
            CompareResult::Incomplete
        }
    }

    /// Compares what is still to be read with the pattern `t`.
    pub fn compare(&self, t: &str) -> (r: CompareResult)
        ensures
            r == compare_model(self@, t.spec_bytes()),
            (r == CompareResult::Match) == starts_with(self@, t.spec_bytes()),
    {
        self.compare_bytes(t.as_bytes())
    }

    /// Compares what is still to be read with the pattern `t`, ignoring
    /// case. What is still to be read must be a text.
    pub fn compare_no_case(&self, t: &str) -> (r: CompareResult)
        requires
            is_text(self@),
        ensures
            r == compare_no_case_model(text_of(self@), t@),
    {
        let own = self.as_str();
        let text = chars_of(own.as_str());
        let pattern = chars_of(t);
        let ghost s = text_of(self@);
        let mut i: usize = 0;
        while i < pattern.len() && i < text.len()
            invariant
                s == text_of(self@),
                text@ == s,
                pattern@ == t@,
                forall|j: int| 0 <= j < i ==> !differ_in_letter_at(s, t@, j),
            decreases pattern.len() - i,
        {
            if !same_letter(text[i], pattern[i]) {
                proof {
                    assert(differ_in_letter_at(s, t@, i as int));
                }
                return CompareResult::Mismatch;
            }
            i += 1;
        }
        proof {
            assert forall|j: int| !differ_in_letter_at(s, t@, j) by {
                if 0 <= j < i {
                    assert(!differ_in_letter_at(s, t@, j));
                }
            }
        }
        if text.len() >= pattern.len() {
            CompareResult::Match
        } else {
            CompareResult::Incomplete
        }
    }

    /// The byte offset of the first character that `predicate` accepts.
    /// What is still to be read must be a text.
    pub fn position<P: Fn(char) -> bool>(&self, predicate: P) -> (r: Option<usize>)
        requires
            is_text(self@),
            forall|c: char| call_requires(predicate, (c,)),
        ensures
            match r {
                Some(i) => exists|k: int|
                    {
                        &&& 0 <= k < text_of(self@).len()
                        &&& call_ensures(predicate, ((#[trigger] text_of(self@)[k]),), true)
                        &&& forall|j: int|
                            0 <= j < k ==> call_ensures(
                                predicate,
                                (#[trigger] text_of(self@)[j],),
                                false,
                            )
                        &&& i == utf8_len(text_of(self@).take(k))
                    },
                None => forall|j: int|
                    0 <= j < text_of(self@).len() ==> call_ensures(
                        predicate,
                        (#[trigger] text_of(self@)[j],),
                        false,
                    ),
            },
    {
        let own = self.as_str();
        let text = chars_of(own.as_str());
        let total = self.input_len();
        let ghost s = text_of(self@);
        let mut at: usize = 0;
        let mut i: usize = 0;
        proof {
            vstd::utf8::decode_utf8_encode_utf8(self@);
            assert(s.take(0) =~= Seq::<char>::empty());
            assert(utf8_len(Seq::<char>::empty()) == 0);
        }
        while i < text.len()
            invariant
                s == text_of(self@),
                text@ == s,
                total == utf8_len(s),
                i <= text.len(),
                at == utf8_len(s.take(i as int)),
                forall|c: char| call_requires(predicate, (c,)),
                forall|j: int| 0 <= j < i ==> call_ensures(predicate, (#[trigger] s[j],), false),
            decreases text.len() - i,
        {
            if predicate(text[i]) {
                return Some(at);
            }
            proof {
                assert(s.take(i + 1) =~= s.take(i as int).push(s[i as int]));
                lemma_utf8_len_push(s.take(i as int), s[i as int]);
                assert(s =~= s.take(i + 1) + s.skip(i + 1));
                lemma_utf8_len_concat(s.take(i + 1), s.skip(i + 1));
            }
            at = at + char_width(text[i]);
            i += 1;
        }
        None
    }

    /// The characters that are still to be read, one after the other.
    /// What is still to be read must be a text.
    pub fn iter_elements(&self) -> (r: StringScannerIterator)
        requires
            is_text(self@),
        ensures
            r.remaining() == text_of(self@),
    {
        let own = self.as_str();
        let chars = chars_of(own.as_str());
        let r = StringScannerIterator { chars, index: 0 };
        proof {
            assert(r.remaining() =~= text_of(self@));
        }
        r
    }

    /// The characters that are still to be read, each with its place among
    /// them, one after the other. What is still to be read must be a text.
    pub fn iter_indices(&self) -> (r: StringScannerIdxIterator)
        requires
            is_text(self@),
        ensures
            r.remaining() == text_of(self@),
            r.spec_index() == 0,
    {
        let own = self.as_str();
        let chars = chars_of(own.as_str());
        let r = StringScannerIdxIterator { chars, index: 0 };
        proof {
            assert(r.remaining() =~= text_of(self@));
        }
        r
    }

    /// Whether `count` bytes can be taken: `Ok(count)` if so, else the
    /// number of bytes that are missing.
    pub fn slice_index(&self, count: usize) -> (r: Result<usize, usize>)
        ensures
            r == if self@.len() >= count {
                Ok::<usize, usize>(count)
            } else {
                Err::<usize, usize>((count - self@.len()) as usize)
            },
    {
        proof {
            use_type_invariant(self);
        }
        let n = self.limit - self.offset;
        if n >= count {
            Ok(count)
        } else {
            Err(count - n)
        }
    }

    /// Whether the pattern stands at `index`.
    fn matches_at(&self, pattern: &[u8], index: usize) -> (r: bool)
        requires
            index <= self@.len(),
        ensures
            r == occurs_at(self@, pattern@, index as int),
    {
        proof {
            use_type_invariant(self);
        }
        let n = self.input_len();
        if pattern.len() > n - index {
            return false;
        }
        let ghost window = self@.subrange(index as int, index + pattern.len());
        let mut i: usize = 0;
        while i < pattern.len()
            invariant
                self.wf(),
                n == self@.len(),
                index + pattern.len() <= n,
                window == self@.subrange(index as int, index + pattern.len()),
                forall|j: int| 0 <= j < i ==> window[j] == pattern@[j],
            decreases pattern.len() - i,
        {
            if self.content[self.offset + index + i] != pattern[i] {
                proof {
                    assert(window[i as int] != pattern@[i as int]);
                }
                return false;
            }
            i += 1;
        }
        proof {
            assert(window =~= pattern@);
        }
        true
    }

    /// Finds the first place at which the bytes `pattern` stand in what is
    /// still to be read.
    pub fn find_bytes(&self, pattern: &[u8]) -> (r: Option<usize>)
        ensures
            match r {
                Some(i) => first_occurrence(self@, pattern@) == Some(i as nat) && i
                    + pattern@.len() <= self@.len(),
                None => first_occurrence(self@, pattern@) is None,
            },
    {
        proof {
            use_type_invariant(self);
        }
        let n = self.input_len();
        let mut i: usize = 0;
        loop
            invariant
                self.wf(),
                n == self@.len(),
                i <= n,
                forall|j: int| 0 <= j < i ==> !occurs_at(self@, pattern@, j),
            ensures
                forall|j: int| 0 <= j <= n ==> !occurs_at(self@, pattern@, j),
            decreases n - i,
        {
            if self.matches_at(pattern, i) {
                proof {
                    lemma_first_occurrence(self@, pattern@, i as int);
                }
                return Some(i);
            }
            if i == n {
                break ;
            }
            i += 1;
        }
        proof {
            assert forall|j: int| !occurs_at(self@, pattern@, j) by {
                if 0 <= j <= n {
                    assert(!occurs_at(self@, pattern@, j));
                }
            }
            lemma_no_occurrence(self@, pattern@);
        }
        None
    }

    /// Finds the first place at which `substr` stands in what is still to
    /// be read.
    pub fn find_substring(&self, substr: &str) -> (r: Option<usize>)
        ensures
            match r {
                Some(i) => first_occurrence(self@, substr.spec_bytes()) == Some(i as nat) && i
                    + substr.spec_bytes().len() <= self@.len(),
                None => first_occurrence(self@, substr.spec_bytes()) is None,
            },
    {
        self.find_bytes(substr.as_bytes())
    }

    /// Puts the bytes that are still to be read behind those of `out`.
    pub fn append_to(&self, out: &mut Vec<u8>)
        ensures
            final(out)@ == old(out)@ + self@,
    {
        proof {
            use_type_invariant(self);
        }
        let ghost before = out@;
        let n = self.input_len();
        let mut i: usize = 0;
        proof {
            assert(out@ =~= before + self@.take(0));
        }
        while i < n
            invariant
                self.wf(),
                n == self@.len(),
                i <= n,
                out@ == before + self@.take(i as int),
            decreases n - i,
        {
            out.push(self.content[self.offset + i]);
            proof {
                assert(out@ =~= before + self@.take(i + 1));
            }
            i += 1;
        }
        proof {
            assert(self@.take(n as int) =~= self@);
        }
    }

    /// The first `index` bytes.
    pub fn take(&self, index: usize) -> (r: Self)
        requires
            index <= self@.len(),
        ensures
            r.heads(*self, index as nat),
            r@ == self@.take(index as int),
            r.location() == self.location(),
            r.eof_idx() == self.eof_idx(),
    {
        proof {
            use_type_invariant(self);
        }
        let r = Self {
            content: share(&self.content),
            offset: self.offset,
            limit: self.offset + index,
        };
        proof {
            assert(r@ =~= self@.take(index as int));
        }
        r
    }

    /// What is left after the first `index` bytes.
    pub fn take_from(&self, index: usize) -> (r: Self)
        requires
            index <= self@.len(),
        ensures
            r.follows(*self, index as nat),
            r@ == self@.skip(index as int),
            r.location() == self.location() + index,
            r.eof_idx() == self.eof_idx(),
    {
        proof {
            use_type_invariant(self);
        }
        let r = Self {
            content: share(&self.content),
            offset: self.offset + index,
            limit: self.limit,
        };
        proof {
            assert(r@ =~= self@.skip(index as int));
        }
        r
    }

    /// Splits after `index` bytes into what was consumed and what remains.
    pub fn take_split(&self, index: usize) -> (r: (Self, Self))
        requires
            index <= self@.len(),
        ensures
            r.0.heads(*self, index as nat),
            r.0@ == self@.take(index as int),
            r.0.location() == self.location(),
            r.0.eof_idx() == self.eof_idx(),
            r.1.follows(*self, index as nat),
            r.1@ == self@.skip(index as int),
            r.1.location() == self.location() + index,
            r.1.eof_idx() == self.eof_idx(),
    {
        (self.take(index), self.take_from(index))
    }
}

/// Walks over the characters of a scanner.
pub struct StringScannerIterator {
    chars: Vec<char>,
    index: usize,
}

impl StringScannerIterator {
    #[verifier::type_invariant]
    spec fn inside(&self) -> bool {
        self.index <= self.chars.len()
    }

    /// The characters that are still to come.
    pub closed spec fn remaining(&self) -> Seq<char> {
        self.chars@.skip(self.index as int)
    }

    /// The next character, if there is one.
    pub fn next(&mut self) -> (r: Option<char>)
        ensures
            match r {
                Some(c) => old(self).remaining().len() > 0 && c == old(self).remaining()[0]
                    && final(self).remaining() == old(self).remaining().skip(1),
                None => old(self).remaining().len() == 0 && final(self).remaining() == old(
                    self,
                ).remaining(),
            },
    {
        proof {
            use_type_invariant(&*self);
        }
        let ghost before = self.remaining();
        if self.index >= self.chars.len() {
            return None;
        }
        self.index += 1;
        proof {
            assert(self.remaining() =~= before.skip(1));
        }
        Some(self.chars[self.index - 1])
    }
}

/// Walks over the characters of a scanner, each with its place.
pub struct StringScannerIdxIterator {
    chars: Vec<char>,
    index: usize,
}

impl StringScannerIdxIterator {
    #[verifier::type_invariant]
    spec fn inside(&self) -> bool {
        self.index <= self.chars.len()
    }

    /// The characters that are still to come.
    pub closed spec fn remaining(&self) -> Seq<char> {
        self.chars@.skip(self.index as int)
    }

    /// The place of the next character.
    pub closed spec fn spec_index(&self) -> nat {
        self.index as nat
    }

    /// The next character with its place, if there is one.
    pub fn next(&mut self) -> (r: Option<(usize, char)>)
        ensures
            match r {
                Some((i, c)) => old(self).remaining().len() > 0 && i == old(self).spec_index()
                    && c == old(self).remaining()[0] && final(self).remaining() == old(
                    self,
                ).remaining().skip(1) && final(self).spec_index() == i + 1,
                None => old(self).remaining().len() == 0 && final(self).remaining() == old(
                    self,
                ).remaining() && final(self).spec_index() == old(self).spec_index(),
            },
    {
        proof {
            use_type_invariant(&*self);
        }
        let ghost before = self.remaining();
        if self.index >= self.chars.len() {
            return None;
        }
        self.index += 1;
        proof {
            assert(self.remaining() =~= before.skip(1));
        }
        Some((self.index - 1, self.chars[self.index - 1]))
    }
}

impl Clone for StringScanner {
    fn clone(&self) -> (r: Self)
        ensures
            r == *self,
    {
        proof {
            use_type_invariant(self);
        }
        Self { content: share(&self.content), offset: self.offset, limit: self.limit }
    }
}

impl FromSpecImpl<&str> for StringScanner {
    open spec fn obeys_from_spec() -> bool {
        false
    }

    open spec fn from_spec(v: &str) -> Self {
        arbitrary()
    }
}

impl From<&str> for StringScanner {
    /// A scanner over the whole of `value`.
    fn from(value: &str) -> (r: Self)
        ensures
            r.wf(),
            r.source() == value.spec_bytes(),
            r@ == value.spec_bytes(),
            is_text(r@),
            text_of(r@) == value@,
            r.start() == 0,
            r.end() == r.source().len(),
            r.location() == 0,
            r.eof_idx() == value.spec_bytes().len(),
    {
        let bytes = value.as_bytes_vec();
        let limit = bytes.len();
        let r = StringScanner { content: Arc::new(bytes), offset: 0, limit };
        proof {
            assert(r@ =~= value.spec_bytes());
            lemma_bytes_of_text(value@);
        }
        r
    }
}

/// What went wrong while lexing.
#[derive(Clone, Debug)]
pub enum LexerErrorDetails {
    /// No recognizer matched at the location.
    NothingMatched,
    /// One recognizer did not match; the text says which.
    InternalError(String),
}

/// What contracts see of the details of a lexer error.
pub enum LexerErrorDetailsView {
    NothingMatched,
    InternalError(Seq<char>),
}

impl View for LexerErrorDetails {
    type V = LexerErrorDetailsView;

    open spec fn view(&self) -> LexerErrorDetailsView {
        match *self {
            LexerErrorDetails::NothingMatched => LexerErrorDetailsView::NothingMatched,
            LexerErrorDetails::InternalError(s) => LexerErrorDetailsView::InternalError(s@),
        }
    }
}

/// The error type of the lexer stage.
#[derive(Debug)]
pub struct LexerError {
    /// The byte offset in the source at which the error occurred.
    pub location: usize,
    /// Details about the exact error.
    pub details: LexerErrorDetails,
    /// The last tokens, three at most, that were lexed before the error.
    pub previous_tokens: Vec<DecoratedToken>,
}

/// What contracts see of a lexer error.
pub struct LexerErrorView {
    pub location: nat,
    pub details: LexerErrorDetailsView,
    pub previous_tokens: Seq<DecoratedTokenView>,
}

impl View for LexerError {
    type V = LexerErrorView;

    open spec fn view(&self) -> LexerErrorView {
        LexerErrorView {
            location: self.location as nat,
            details: self.details@,
            previous_tokens: self.previous_tokens.deep_view(),
        }
    }
}

/// The result of a step of the lexer.
pub type LexerResult<T> = Result<T, LexerError>;

/// The error of a recognizer that does not match at `location`.
pub open spec fn no_match(location: nat, recognizer: Seq<char>) -> LexerErrorView {
    LexerErrorView {
        location,
        details: LexerErrorDetailsView::InternalError(recognizer),
        previous_tokens: Seq::empty(),
    }
}

/// Builds the error of a recognizer that does not match at `location`.
pub fn error_at(location: usize, recognizer: &str) -> (e: LexerError)
    ensures
        e@ == no_match(location as nat, recognizer@),
{
    let e = LexerError {
        location,
        details: LexerErrorDetails::InternalError(String::from_str(recognizer)),
        previous_tokens: Vec::new(),
    };
    proof {
        assert(e@.previous_tokens =~= Seq::empty());
    }
    e
}

/// What a recognizer finds at the start of a text: how many bytes it
/// consumes and the token they make; `None` where it does not match.
pub type Lexeme = Option<(nat, TokenView)>;

/// The result `r` of a recognizer on `input` agrees with what the recognizer
/// finds: on a match, the token and what is left after it; otherwise the
/// error that names the recognizer.
pub open spec fn recognized(
    input: StringScanner,
    found: Lexeme,
    recognizer: Seq<char>,
    r: LexerResult<(StringScanner, Token)>,
) -> bool {
    match r {
        Ok((rest, token)) => {
            &&& found matches Some((length, expected))
            &&& token@ == expected
            &&& length <= input@.len()
            &&& rest.follows(input, length)
        },
        Err(e) => found is None && e@ == no_match(input.location() as nat, recognizer),
    }
}

} // verus!
