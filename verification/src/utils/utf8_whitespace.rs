//! Comparing byte strings apart from their whitespace.
use vstd::prelude::*;

verus! {

/// A character of valid UTF-8, or one byte of what is not.
#[derive(Debug, Clone, Copy, PartialEq, Eq, Structural)]
pub enum CharOrByte {
    Char(char),
    Byte(u8),
}

/// One stretch of a byte string: the characters of a run of valid UTF-8, and
/// the bytes after it that are not valid UTF-8.
#[derive(Debug, Clone)]
pub struct Utf8Chunk {
    pub valid: Vec<char>,
    pub invalid: Vec<u8>,
}

impl View for Utf8Chunk {
    type V = (Seq<char>, Seq<u8>);

    open spec fn view(&self) -> (Seq<char>, Seq<u8>) {
        (self.valid@, self.invalid@)
    }
}

/// The views of a sequence of chunks.
pub open spec fn chunk_views(chunks: Seq<Utf8Chunk>) -> Seq<(Seq<char>, Seq<u8>)> {
    Seq::new(chunks.len(), |i: int| chunks[i]@)
}

/// The chunks into which std's `<[u8]>::utf8_chunks` cuts a byte string: for
/// each, the characters of the valid part and the bytes of the invalid part.
pub uninterp spec fn utf8_chunks_of(bytes: Seq<u8>) -> Seq<(Seq<char>, Seq<u8>)>;

/// Whether std's `char::is_whitespace` holds of a character: whether it has
/// the Unicode property `White_Space`.
pub uninterp spec fn char_is_whitespace(c: char) -> bool;

/// Cuts a byte string into its valid and invalid stretches.
///
/// Trusted: the body is std's `<[u8]>::utf8_chunks`, each chunk turned into
/// the characters of its valid part and the bytes of its invalid part. The
/// contract only gives the result its name.
#[verifier::external_body]
pub(crate) fn utf8_chunks(bytes: &[u8]) -> (chunks: Vec<Utf8Chunk>)
    ensures
        chunk_views(chunks@) == utf8_chunks_of(bytes@),
{
    bytes.utf8_chunks().map(
        |chunk|
            Utf8Chunk {
                valid: chunk.valid().chars().collect(),
                invalid: chunk.invalid().to_vec(),
            },
    ).collect()
}

/// Whether a character is whitespace.
///
/// Trusted: the body is std's `char::is_whitespace`. The contract only gives
/// the result its name.
#[verifier::external_body]
pub(crate) fn is_whitespace_char(c: char) -> (r: bool)
    ensures
        r == char_is_whitespace(c),
{
    c.is_whitespace()
}

/// Whether a byte is ASCII whitespace: space, tab, line feed, form feed or
/// carriage return.
pub open spec fn byte_is_whitespace(b: u8) -> bool {
    b == 32 || b == 9 || b == 10 || b == 12 || b == 13
}

/// Whether a byte is ASCII whitespace.
pub fn is_whitespace_byte(b: u8) -> (r: bool)
    ensures
        r == byte_is_whitespace(b),
{
    b == 32 || b == 9 || b == 10 || b == 12 || b == 13
}

/// Whether a character or byte is whitespace.
pub open spec fn is_whitespace(c: CharOrByte) -> bool {
    match c {
        CharOrByte::Char(c) => char_is_whitespace(c),
        CharOrByte::Byte(b) => byte_is_whitespace(b),
    }
}

/// A character, as one of the things that a byte string holds.
pub open spec fn char_item(c: char) -> CharOrByte {
    CharOrByte::Char(c)
}

/// A byte, as one of the things that a byte string holds.
pub open spec fn byte_item(b: u8) -> CharOrByte {
    CharOrByte::Byte(b)
}

/// What a chunk holds: the characters of its valid part, then the bytes of
/// its invalid part.
pub open spec fn chunk_items(chunk: (Seq<char>, Seq<u8>)) -> Seq<CharOrByte> {
    chunk.0.map_values(|c: char| char_item(c)) + chunk.1.map_values(|b: u8| byte_item(b))
}

/// What the chunks from index `from` on hold, up to the first chunk that
/// holds nothing.
pub open spec fn following(chunks: Seq<(Seq<char>, Seq<u8>)>, from: int) -> Seq<CharOrByte>
    decreases chunks.len() - from,
{
    if from < 0 || from >= chunks.len() {
        Seq::empty()
    } else if chunk_items(chunks[from]).len() == 0 {
        Seq::empty()
    } else {
        chunk_items(chunks[from]) + following(chunks, from + 1)
    }
}

/// What a skipper gives out of a chunked byte string, from its start to
/// where it first says that nothing is left: all that the chunks hold, but
/// for what follows a chunk after the first that holds nothing.
pub open spec fn text_of(chunks: Seq<(Seq<char>, Seq<u8>)>) -> Seq<CharOrByte> {
    (SkipperView { chunks, loaded: 0, valid_pos: 0, invalid_pos: 0 }).advanced().remaining()
}

/// What is left of `text` when its whitespace is taken out.
pub open spec fn without_whitespace(text: Seq<CharOrByte>) -> Seq<CharOrByte>
    decreases text.len(),
{
    if text.len() == 0 {
        Seq::empty()
    } else if is_whitespace(text[0]) {
        without_whitespace(text.skip(1))
    } else {
        seq![text[0]] + without_whitespace(text.skip(1))
    }
}

/// How much whitespace `text` begins with.
pub open spec fn leading_whitespace(text: Seq<CharOrByte>) -> int
    decreases text.len(),
{
    if text.len() == 0 || !is_whitespace(text[0]) {
        0
    } else {
        1 + leading_whitespace(text.skip(1))
    }
}

/// The whitespace that `text` begins with does not show in what is left when
/// whitespace is taken out.
pub proof fn lemma_leading_whitespace(text: Seq<CharOrByte>)
    ensures
        0 <= leading_whitespace(text) <= text.len(),
        without_whitespace(text) == without_whitespace(text.skip(leading_whitespace(text))),
        leading_whitespace(text) < text.len() ==> !is_whitespace(text[leading_whitespace(text)]),
        leading_whitespace(text) == text.len() ==> without_whitespace(text).len() == 0,
    decreases text.len(),
{
    if text.len() == 0 || !is_whitespace(text[0]) {
        assert(text.skip(0) =~= text);
    } else {
        let rest = text.skip(1);
        lemma_leading_whitespace(rest);
        assert(rest.skip(leading_whitespace(rest)) =~= text.skip(leading_whitespace(text)));
        if leading_whitespace(text) < text.len() {
            assert(rest[leading_whitespace(rest)] == text[leading_whitespace(text)]);
        }
    }
}

/// The state of a [`WhiteSpaceSkipper`].
pub struct SkipperView {
    pub chunks: Seq<(Seq<char>, Seq<u8>)>,
    /// How many chunks were begun. The last of them is the one at hand.
    pub loaded: int,
    /// How many characters of the chunk at hand were given out.
    pub valid_pos: int,
    /// How many bytes of the chunk at hand were given out.
    pub invalid_pos: int,
}

impl SkipperView {
    /// What is left of the chunk at hand.
    pub open spec fn at_hand(self) -> Seq<CharOrByte> {
        if 0 < self.loaded <= self.chunks.len() {
            chunk_items(self.chunks[self.loaded - 1]).skip(self.valid_pos + self.invalid_pos)
        } else {
            Seq::empty()
        }
    }

    /// What the skipper gives out before it first says that nothing is left.
    pub open spec fn remaining(self) -> Seq<CharOrByte> {
        if self.at_hand().len() > 0 {
            self.at_hand() + following(self.chunks, self.loaded)
        } else {
            following(self.chunks, self.loaded)
        }
    }

    /// The state with the next chunk at hand, where there is one.
    pub open spec fn advanced(self) -> SkipperView {
        if self.loaded < self.chunks.len() {
            SkipperView { loaded: self.loaded + 1, valid_pos: 0, invalid_pos: 0, ..self }
        } else {
            self
        }
    }

    /// The state after what is first at hand was given out.
    pub open spec fn stepped(self) -> SkipperView {
        if 0 < self.loaded <= self.chunks.len() && self.valid_pos < self.chunks[self.loaded
            - 1].0.len() {
            SkipperView { valid_pos: self.valid_pos + 1, ..self }
        } else {
            SkipperView { invalid_pos: self.invalid_pos + 1, ..self }
        }
    }

    /// The state after the first of what remains was given out: it was at
    /// hand, or first in the next chunk.
    pub open spec fn taken(self) -> SkipperView {
        if self.at_hand().len() > 0 {
            self.stepped()
        } else {
            self.advanced().stepped()
        }
    }

    /// The state after the first `n` of what remains were given out.
    pub open spec fn taken_times(self, n: nat) -> SkipperView
        decreases n,
    {
        if n == 0 {
            self
        } else {
            self.taken().taken_times((n - 1) as nat)
        }
    }

    /// Whether the positions lie within the chunks.
    pub open spec fn wf(self) -> bool {
        &&& 0 <= self.loaded <= self.chunks.len()
        &&& 0 <= self.valid_pos
        &&& 0 <= self.invalid_pos
        &&& self.loaded == 0 ==> self.valid_pos == 0 && self.invalid_pos == 0
        &&& self.loaded > 0 ==> self.valid_pos <= self.chunks[self.loaded - 1].0.len()
            && self.invalid_pos <= self.chunks[self.loaded - 1].1.len()
        &&& self.loaded > 0 && self.invalid_pos > 0 ==> self.valid_pos
            == self.chunks[self.loaded - 1].0.len()
    }
}

/// Gives out the characters and bytes of a chunked byte string one by one,
/// and can pass over whitespace.
pub struct WhiteSpaceSkipper {
    pub chunks: Vec<Utf8Chunk>,
    pub loaded: usize,
    pub valid_pos: usize,
    pub invalid_pos: usize,
}

impl View for WhiteSpaceSkipper {
    type V = SkipperView;

    open spec fn view(&self) -> SkipperView {
        SkipperView {
            chunks: chunk_views(self.chunks@),
            loaded: self.loaded as int,
            valid_pos: self.valid_pos as int,
            invalid_pos: self.invalid_pos as int,
        }
    }
}

impl WhiteSpaceSkipper {
    /// A skipper at the start of `chunks`.
    pub fn new(chunks: Vec<Utf8Chunk>) -> (this: Self)
        ensures
            this@.wf(),
            this@.chunks == chunk_views(chunks@),
            this@.remaining() == text_of(chunk_views(chunks@)),
            this@ == (SkipperView {
                chunks: chunk_views(chunks@),
                loaded: 0,
                valid_pos: 0,
                invalid_pos: 0,
            }).advanced(),
    {
        let mut this = Self { chunks, loaded: 0, valid_pos: 0, invalid_pos: 0 };
        this.advance_chunk();
        this
    }

    /// Takes the next chunk to hand, where there is one.
    pub fn advance_chunk(&mut self)
        requires
            old(self)@.wf(),
        ensures
            final(self)@.wf(),
            final(self)@ == old(self)@.advanced(),
            old(self)@.at_hand().len() == 0 && final(self)@.at_hand().len() > 0
                ==> final(self)@.remaining() == old(self)@.remaining(),
            old(self)@.at_hand().len() == 0 && final(self)@.at_hand().len() == 0
                ==> old(self)@.remaining().len() == 0,
    {
        if self.loaded < self.chunks.len() {
            self.loaded += 1;
            self.valid_pos = 0;
            self.invalid_pos = 0;
        }
    }

    /// What is at the positions of the chunk at hand, if anything is; the
    /// position moves behind it.
    fn take_at_hand(&mut self) -> (out: Option<CharOrByte>)
        requires
            old(self)@.wf(),
        ensures
            final(self)@.wf(),
            old(self)@.at_hand().len() > 0 ==> out == Some(old(self)@.at_hand()[0])
                && final(self)@.at_hand() == old(self)@.at_hand().skip(1) && final(self)@
                == old(self)@.stepped(),
            old(self)@.at_hand().len() == 0 ==> out is None && final(self)@ == old(self)@,
    {
        if self.loaded == 0 {
            return None;
        }
        let ghost before = self@;
        let ghost chunk = self.chunks@[self.loaded - 1]@;
        assert(self@.chunks[self.loaded - 1] == chunk);
        let valid_len = self.chunks[self.loaded - 1].valid.len();
        let invalid_len = self.chunks[self.loaded - 1].invalid.len();
        if self.valid_pos < valid_len {
            let c = self.chunks[self.loaded - 1].valid[self.valid_pos];
            self.valid_pos += 1;
            proof {
                lemma_chunk_items(chunk, before.valid_pos + before.invalid_pos);
                assert(self@.chunks[self.loaded - 1] == chunk);
            }
            return Some(CharOrByte::Char(c));
        }
        if self.invalid_pos < invalid_len {
            let b = self.chunks[self.loaded - 1].invalid[self.invalid_pos];
            self.invalid_pos += 1;
            proof {
                lemma_chunk_items(chunk, before.valid_pos + before.invalid_pos);
                assert(self@.chunks[self.loaded - 1] == chunk);
            }
            return Some(CharOrByte::Byte(b));
        }
        None
    }

    /// The next character or byte, whitespace or not. `None` where the chunk
    /// at hand is used up and the next one holds nothing, or there is none.
    pub fn next_any_char(&mut self) -> (out: Option<CharOrByte>)
        requires
            old(self)@.wf(),
        ensures
            final(self)@.wf(),
            final(self)@.chunks == old(self)@.chunks,
            old(self)@.remaining().len() > 0 ==> out == Some(old(self)@.remaining()[0])
                && final(self)@.remaining() == old(self)@.remaining().skip(1) && final(self)@
                == old(self)@.taken(),
            old(self)@.remaining().len() == 0 ==> out is None && final(self)@
                == old(self)@.advanced(),
    {
        let ghost before = self@;
        if let Some(c) = self.take_at_hand() {
            proof {
                lemma_remaining_after_take(before, self@);
            }
            return Some(c);
        }
        self.advance_chunk();
        let ghost loaded = self@;
        if let Some(c) = self.take_at_hand() {
            proof {
                lemma_remaining_after_take(loaded, self@);
            }
            return Some(c);
        }
        None
    }

    /// The next character or byte that is not whitespace: the whitespace
    /// before it is passed over. `None` where only whitespace is left before
    /// the skipper says that nothing is left.
    pub fn next_non_whitespace(&mut self) -> (out: Option<CharOrByte>)
        requires
            old(self)@.wf(),
        ensures
            final(self)@.wf(),
            final(self)@.chunks == old(self)@.chunks,
            without_whitespace(old(self)@.remaining()).len() > 0 ==> out == Some(
                without_whitespace(old(self)@.remaining())[0],
            ) && without_whitespace(final(self)@.remaining()) == without_whitespace(
                old(self)@.remaining(),
            ).skip(1),
            without_whitespace(old(self)@.remaining()).len() == 0 ==> out is None,
            leading_whitespace(old(self)@.remaining()) < old(self)@.remaining().len() ==> out
                == Some(old(self)@.remaining()[leading_whitespace(old(self)@.remaining())])
                && final(self)@ == old(self)@.taken_times(
                (leading_whitespace(old(self)@.remaining()) + 1) as nat,
            ),
            leading_whitespace(old(self)@.remaining()) >= old(self)@.remaining().len() ==> out
                is None && final(self)@ == old(self)@.taken_times(
                leading_whitespace(old(self)@.remaining()) as nat,
            ).advanced(),
    {
        let ghost start = self@;
        let ghost all = self@.remaining();
        let ghost mut passed: nat = 0;
        proof {
            lemma_leading_whitespace(all);
            assert(all.skip(0) =~= all);
        }
        loop
            invariant
                self@.wf(),
                start == old(self)@,
                all == start.remaining(),
                self@.chunks == start.chunks,
                self@ == start.taken_times(passed),
                passed <= leading_whitespace(all) <= all.len(),
                self@.remaining() == all.skip(passed as int),
                leading_whitespace(all) == passed + leading_whitespace(self@.remaining()),
                without_whitespace(self@.remaining()) == without_whitespace(all),
            decreases self@.remaining().len(),
        {
            let ghost left = self@.remaining();
            let ghost before = self@;
            proof {
                lemma_leading_whitespace(left);
                lemma_taken_times_more(start, passed);
            }
            match self.next_any_char() {
                Some(c) => {
                    let skip = match c {
                        CharOrByte::Char(c) => is_whitespace_char(c),
                        CharOrByte::Byte(b) => is_whitespace_byte(b),
                    };
                    proof {
                        assert(left.skip(1) =~= all.skip(passed as int + 1));
                        assert(left[0] == all[passed as int]);
                    }
                    if !skip {
                        assert(without_whitespace(left).skip(1) =~= without_whitespace(
                            left.skip(1),
                        ));
                        return Some(c);
                    }
                    proof {
                        passed = passed + 1;
                    }
                },
                None => {
                    return None;
                },
            }
        }
    }
}

/// Giving out one more is giving out the first, and then the rest.
pub proof fn lemma_taken_times_more(s: SkipperView, n: nat)
    ensures
        s.taken_times(n + 1) == s.taken_times(n).taken(),
    decreases n,
{
    if n == 0 {
        assert(s.taken_times(1) == s.taken().taken_times(0));
    } else {
        lemma_taken_times_more(s.taken(), (n - 1) as nat);
        assert(s.taken_times(n + 1) == s.taken().taken_times(n));
        assert(s.taken_times(n) == s.taken().taken_times((n - 1) as nat));
    }
}

/// What stands at a position of a chunk, and what is left behind it.
pub proof fn lemma_chunk_items(chunk: (Seq<char>, Seq<u8>), pos: int)
    requires
        0 <= pos < chunk.0.len() + chunk.1.len(),
    ensures
        chunk_items(chunk).len() == chunk.0.len() + chunk.1.len(),
        chunk_items(chunk).skip(pos).len() > 0,
        chunk_items(chunk).skip(pos)[0] == if pos < chunk.0.len() {
            CharOrByte::Char(chunk.0[pos])
        } else {
            CharOrByte::Byte(chunk.1[pos - chunk.0.len()])
        },
        chunk_items(chunk).skip(pos).skip(1) == chunk_items(chunk).skip(pos + 1),
{
    assert(chunk_items(chunk).skip(pos).skip(1) =~= chunk_items(chunk).skip(pos + 1));
}

/// Taking what is first at hand takes what is first of all that remains.
pub proof fn lemma_remaining_after_take(before: SkipperView, after: SkipperView)
    requires
        before.at_hand().len() > 0,
        after.at_hand() == before.at_hand().skip(1),
        after.chunks == before.chunks,
        after.loaded == before.loaded,
    ensures
        before.remaining().len() > 0,
        before.remaining()[0] == before.at_hand()[0],
        after.remaining() == before.remaining().skip(1),
{
    let rest = following(before.chunks, before.loaded);
    assert((before.at_hand() + rest).skip(1) =~= before.at_hand().skip(1) + rest);
    if after.at_hand().len() == 0 {
        assert(before.at_hand().skip(1) + rest =~= rest);
    }
}

/// Whether two byte strings are the same apart from whitespace: each is read
/// as UTF-8 where it is valid and byte by byte where it is not, and what is
/// left of the two without whitespace is the same.
pub open spec fn same_ignoring_whitespace(a: Seq<u8>, b: Seq<u8>) -> bool {
    without_whitespace(text_of(utf8_chunks_of(a))) == without_whitespace(
        text_of(utf8_chunks_of(b)),
    )
}

/// Compares two byte strings, passing over all whitespace in both.
pub fn is_equal_ignoring_whitespace(a: &[u8], b: &[u8]) -> (r: bool)
    ensures
        r == same_ignoring_whitespace(a@, b@),
{
    chunks_equal_ignoring_whitespace(utf8_chunks(a), utf8_chunks(b))
}

/// Compares two chunked byte strings, passing over all whitespace in both.
pub fn chunks_equal_ignoring_whitespace(a: Vec<Utf8Chunk>, b: Vec<Utf8Chunk>) -> (r: bool)
    ensures
        r == (without_whitespace(text_of(chunk_views(a@))) == without_whitespace(
            text_of(chunk_views(b@)),
        )),
{
    let ghost text_a = without_whitespace(text_of(chunk_views(a@)));
    let ghost text_b = without_whitespace(text_of(chunk_views(b@)));
    let mut a_chars = WhiteSpaceSkipper::new(a);
    let mut b_chars = WhiteSpaceSkipper::new(b);
    loop
        invariant
            a_chars@.wf(),
            b_chars@.wf(),
            text_a == without_whitespace(text_of(chunk_views(a@))),
            text_b == without_whitespace(text_of(chunk_views(b@))),
            (text_a == text_b) == (without_whitespace(a_chars@.remaining()) == without_whitespace(
                b_chars@.remaining(),
            )),
        decreases without_whitespace(a_chars@.remaining()).len(),
    {
        let ghost left_a = without_whitespace(a_chars@.remaining());
        let ghost left_b = without_whitespace(b_chars@.remaining());
        let x = a_chars.next_non_whitespace();
        let y = b_chars.next_non_whitespace();
        match (x, y) {
            (None, None) => {
                assert(left_a =~= left_b);
                return true;
            },
            (Some(ac), Some(bc)) => {
                if ac != bc {
                    return false;
                }
                assert(left_a =~= seq![ac] + left_a.skip(1));
                assert(left_b =~= seq![bc] + left_b.skip(1));
                assert((left_a == left_b) == (left_a.skip(1) == left_b.skip(1))) by {
                    if left_a.skip(1) == left_b.skip(1) {
                        assert(left_a =~= left_b);
                    }
                };
            },
            _ => {
                return false;
            },
        }
    }
}

} // verus!
