//! Object ids, commits and tree changes as plain values.
use vstd::prelude::*;

use crate::utils::text::{chars_of, string_from_chars};

verus! {

/// The 20 bytes of a SHA-1 object id.
///
/// Two ids are equal when their bytes are.
#[derive(Clone, Copy, Debug, Eq)]
pub struct ObjectId {
    pub bytes: [u8; 20],
}

/// The id of a commit.
pub type CommitId = ObjectId;

/// The id of a tree.
pub type TreeId = ObjectId;

impl PartialEq for ObjectId {
    fn eq(&self, other: &Self) -> (r: bool) {
        let mut i: usize = 0;
        while i < 20
            invariant
                i <= 20,
                forall|j: int| 0 <= j < i ==> self.bytes@[j] == other.bytes@[j],
            decreases 20 - i,
        {
            if self.bytes[i] != other.bytes[i] {
                assert(self.bytes@[i as int] != other.bytes@[i as int]);
                return false;
            }
            i += 1;
        }
        assert(self.bytes =~= other.bytes);
        true
    }
}

impl vstd::std_specs::cmp::PartialEqSpecImpl for ObjectId {
    open spec fn obeys_eq_spec() -> bool {
        true
    }

    open spec fn eq_spec(&self, other: &Self) -> bool {
        *self == *other
    }
}

/// The lower-case hexadecimal digit of a value below 16.
pub open spec fn hex_digit(nibble: int) -> char {
    if nibble == 0 {
        '0'
    } else if nibble == 1 {
        '1'
    } else if nibble == 2 {
        '2'
    } else if nibble == 3 {
        '3'
    } else if nibble == 4 {
        '4'
    } else if nibble == 5 {
        '5'
    } else if nibble == 6 {
        '6'
    } else if nibble == 7 {
        '7'
    } else if nibble == 8 {
        '8'
    } else if nibble == 9 {
        '9'
    } else if nibble == 10 {
        'a'
    } else if nibble == 11 {
        'b'
    } else if nibble == 12 {
        'c'
    } else if nibble == 13 {
        'd'
    } else if nibble == 14 {
        'e'
    } else {
        'f'
    }
}

/// The hexadecimal rendering of a byte string: two digits per byte, the high
/// half first.
pub open spec fn hex_of(bytes: Seq<u8>) -> Seq<char> {
    Seq::new(
        2 * bytes.len(),
        |i: int|
            if i % 2 == 0 {
                hex_digit(bytes[i / 2] as int / 16)
            } else {
                hex_digit(bytes[i / 2] as int % 16)
            },
    )
}

fn hex_char(nibble: u8) -> (c: char)
    requires
        nibble < 16,
    ensures
        c == hex_digit(nibble as int),
{
    if nibble == 0 {
        '0'
    } else if nibble == 1 {
        '1'
    } else if nibble == 2 {
        '2'
    } else if nibble == 3 {
        '3'
    } else if nibble == 4 {
        '4'
    } else if nibble == 5 {
        '5'
    } else if nibble == 6 {
        '6'
    } else if nibble == 7 {
        '7'
    } else if nibble == 8 {
        '8'
    } else if nibble == 9 {
        '9'
    } else if nibble == 10 {
        'a'
    } else if nibble == 11 {
        'b'
    } else if nibble == 12 {
        'c'
    } else if nibble == 13 {
        'd'
    } else if nibble == 14 {
        'e'
    } else {
        'f'
    }
}

/// Whether every byte of an id is zero.
pub open spec fn is_null_id(id: ObjectId) -> bool {
    forall|i: int| 0 <= i < 20 ==> id.bytes@[i] == 0
}

/// The id whose bytes are all zero.
pub open spec fn null_object_id() -> ObjectId {
    choose|id: ObjectId| is_null_id(id)
}

impl ObjectId {
    /// The id whose bytes are all zero.
    pub fn null() -> (id: ObjectId)
        ensures
            id == null_object_id(),
            is_null_id(id),
    {
        let id = ObjectId {
            bytes: [
                0u8, 0u8, 0u8, 0u8, 0u8, 0u8, 0u8, 0u8, 0u8, 0u8, 0u8, 0u8, 0u8, 0u8, 0u8, 0u8, 0u8,
                0u8, 0u8, 0u8,
            ],
        };
        assert(is_null_id(id));
        assert(id.bytes =~= null_object_id().bytes);
        id
    }

    /// The id with the given bytes.
    pub fn from_bytes(bytes: [u8; 20]) -> (id: ObjectId)
        ensures
            id.bytes == bytes,
    {
        ObjectId { bytes }
    }

    /// The id as 40 lower-case hexadecimal digits.
    pub fn to_hex(&self) -> (hex: String)
        ensures
            hex@ == hex_of(self.bytes@),
            hex@.len() == 40,
    {
        let mut out: Vec<char> = Vec::new();
        let mut i: usize = 0;
        while i < 20
            invariant
                i <= 20,
                out@.len() == 2 * i,
                forall|j: int| 0 <= j < 2 * i ==> out@[j] == hex_of(self.bytes@)[j],
            decreases 20 - i,
        {
            let b: u8 = self.bytes[i];
            out.push(hex_char(b / 16));
            out.push(hex_char(b % 16));
            i += 1;
        }
        assert(out@ =~= hex_of(self.bytes@));
        string_from_chars(&out)
    }
}

/// The value of a lower-case hexadecimal digit, or 16 for any other
/// character.
pub open spec fn hex_value(c: char) -> int {
    if c == '0' {
        0
    } else if c == '1' {
        1
    } else if c == '2' {
        2
    } else if c == '3' {
        3
    } else if c == '4' {
        4
    } else if c == '5' {
        5
    } else if c == '6' {
        6
    } else if c == '7' {
        7
    } else if c == '8' {
        8
    } else if c == '9' {
        9
    } else if c == 'a' {
        10
    } else if c == 'b' {
        11
    } else if c == 'c' {
        12
    } else if c == 'd' {
        13
    } else if c == 'e' {
        14
    } else if c == 'f' {
        15
    } else {
        16
    }
}

fn hex_value_of(c: char) -> (v: u8)
    ensures
        v == hex_value(c),
        v <= 16,
{
    if c == '0' {
        0
    } else if c == '1' {
        1
    } else if c == '2' {
        2
    } else if c == '3' {
        3
    } else if c == '4' {
        4
    } else if c == '5' {
        5
    } else if c == '6' {
        6
    } else if c == '7' {
        7
    } else if c == '8' {
        8
    } else if c == '9' {
        9
    } else if c == 'a' {
        10
    } else if c == 'b' {
        11
    } else if c == 'c' {
        12
    } else if c == 'd' {
        13
    } else if c == 'e' {
        14
    } else if c == 'f' {
        15
    } else {
        16
    }
}

/// Whether a text is the rendering of an object id: 40 lower-case
/// hexadecimal digits.
pub open spec fn is_hex_id(text: Seq<char>) -> bool {
    text.len() == 40 && forall|i: int| 0 <= i < 40 ==> hex_value(#[trigger] text[i]) < 16
}

/// A digit is the digit of its value.
pub proof fn lemma_hex_digit_of_value(c: char)
    requires
        hex_value(c) < 16,
    ensures
        hex_digit(hex_value(c)) == c,
{
}

/// The value of the digit of a value below 16 is that value.
pub proof fn lemma_hex_value_of_digit(nibble: int)
    requires
        0 <= nibble < 16,
    ensures
        hex_value(hex_digit(nibble)) == nibble,
{
}

/// The rendering of an object id is the rendering of an object id.
pub proof fn lemma_hex_of_is_hex_id(id: ObjectId)
    ensures
        is_hex_id(hex_of(id.bytes@)),
{
    let text = hex_of(id.bytes@);
    assert forall|i: int| 0 <= i < 40 implies hex_value(#[trigger] text[i]) < 16 by {
        let b = id.bytes@[i / 2] as int;
        lemma_hex_value_of_digit(b / 16);
        lemma_hex_value_of_digit(b % 16);
    }
}

impl ObjectId {
    /// The id that a text of 40 lower-case hexadecimal digits renders.
    /// `None` for any other text.
    pub fn from_hex(text: &str) -> (id: Option<ObjectId>)
        ensures
            id is Some == is_hex_id(text@),
            id matches Some(id) ==> hex_of(id.bytes@) == text@,
    {
        let chars = chars_of(text);
        if chars.len() != 40 {
            return None;
        }
        let mut bytes: [u8; 20] = [
            0u8,
            0u8,
            0u8,
            0u8,
            0u8,
            0u8,
            0u8,
            0u8,
            0u8,
            0u8,
            0u8,
            0u8,
            0u8,
            0u8,
            0u8,
            0u8,
            0u8,
            0u8,
            0u8,
            0u8,
        ];
        let mut i: usize = 0;
        while i < 20
            invariant
                i <= 20,
                chars@.len() == 40,
                chars@ == text@,
                forall|k: int| 0 <= k < 2 * i ==> hex_value(#[trigger] chars@[k]) < 16,
                forall|k: int|
                    0 <= k < i ==> (#[trigger] bytes@[k]) as int == 16 * hex_value(chars@[2 * k])
                        + hex_value(chars@[2 * k + 1]),
            decreases 20 - i,
        {
            let high = hex_value_of(chars[2 * i]);
            let low = hex_value_of(chars[2 * i + 1]);
            if high >= 16 || low >= 16 {
                return None;
            }
            bytes[i] = high * 16 + low;
            i += 1;
        }
        let id = ObjectId { bytes };
        proof {
            assert forall|k: int| 0 <= k < 40 implies hex_of(id.bytes@)[k] == text@[k] by {
                let b = id.bytes@[k / 2] as int;
                assert(b == 16 * hex_value(chars@[2 * (k / 2)]) + hex_value(
                    chars@[2 * (k / 2) + 1],
                ));
                lemma_hex_digit_of_value(chars@[k]);
            }
            assert(hex_of(id.bytes@) =~= text@);
        }
        Some(id)
    }
}

/// Who wrote or committed a commit, and when.
#[derive(Clone, Debug)]
pub struct Signature {
    pub name: Vec<u8>,
    pub email: Vec<u8>,
    /// Seconds since the Unix epoch.
    pub seconds: i64,
    /// Offset of the time zone from UTC, in minutes.
    pub offset_minutes: i32,
}

/// A commit, as the rules read it.
///
/// A commit with two or more parents is a merge.
#[derive(Clone, Debug)]
pub struct Commit {
    pub id: CommitId,
    pub parents: Vec<CommitId>,
    pub author: Signature,
    pub committer: Signature,
    /// The bytes of the message up to its first line feed. They need not be
    /// valid UTF-8.
    pub message_title: Vec<u8>,
    /// The bytes of the message after its first line feed.
    pub message_body: Vec<u8>,
    pub tree: TreeId,
}

/// The offset of the first line feed in `message`, or its length where it
/// holds none.
pub open spec fn title_len(message: Seq<u8>) -> int
    decreases message.len(),
{
    if message.len() == 0 || message[0] == 10 {
        0
    } else {
        1 + title_len(message.skip(1))
    }
}

/// The title of a raw commit message: what stands before its first line feed.
pub open spec fn title_of(message: Seq<u8>) -> Seq<u8> {
    message.take(title_len(message))
}

/// The body of a raw commit message: what stands after its first line feed.
pub open spec fn body_of(message: Seq<u8>) -> Seq<u8> {
    if title_len(message) < message.len() {
        message.skip(title_len(message) + 1)
    } else {
        Seq::empty()
    }
}

/// The title is no longer than the message, holds no line feed, and ends at
/// a line feed or at the end of the message.
pub proof fn lemma_title_len(message: Seq<u8>)
    ensures
        0 <= title_len(message) <= message.len(),
        forall|i: int| 0 <= i < title_len(message) ==> message[i] != 10,
        title_len(message) < message.len() ==> message[title_len(message)] == 10,
    decreases message.len(),
{
    if message.len() == 0 || message[0] == 10 {
    } else {
        let rest = message.skip(1);
        lemma_title_len(rest);
        assert forall|i: int| 0 <= i < title_len(message) implies message[i] != 10 by {
            if i > 0 {
                assert(rest[i - 1] == message[i]);
            }
        }
        if title_len(message) < message.len() {
            assert(rest[title_len(rest)] == message[title_len(message)]);
        }
    }
}

impl Commit {
    /// A commit whose title and body are cut from its raw message at the
    /// first line feed.
    pub fn from_message(
        id: CommitId,
        parents: Vec<CommitId>,
        author: Signature,
        committer: Signature,
        message: &[u8],
        tree: TreeId,
    ) -> (commit: Commit)
        ensures
            commit.id == id,
            commit.parents == parents,
            commit.author == author,
            commit.committer == committer,
            commit.tree == tree,
            commit.message_title@ == title_of(message@),
            commit.message_body@ == body_of(message@),
    {
        let mut title: Vec<u8> = Vec::new();
        let mut body: Vec<u8> = Vec::new();
        let mut i: usize = 0;
        proof {
            lemma_title_len(message@);
        }
        while i < message.len() && message[i] != 10
            invariant
                i <= message@.len(),
                i <= title_len(message@),
                title@ == message@.take(i as int),
                forall|k: int| 0 <= k < title_len(message@) ==> message@[k] != 10,
                title_len(message@) < message@.len() ==> message@[title_len(message@)] == 10,
                title_len(message@) <= message@.len(),
            decreases message@.len() - i,
        {
            title.push(message[i]);
            assert(message@.take(i as int).push(message@[i as int]) =~= message@.take(i + 1));
            i += 1;
        }
        assert(i == title_len(message@));
        if i < message.len() {
            let start: usize = i + 1;
            let mut j: usize = start;
            while j < message.len()
                invariant
                    start <= j <= message@.len(),
                    body@ == message@.subrange(start as int, j as int),
                decreases message@.len() - j,
            {
                body.push(message[j]);
                assert(message@.subrange(start as int, j as int).push(message@[j as int])
                    =~= message@.subrange(start as int, j + 1));
                j += 1;
            }
            assert(message@.subrange(start as int, message@.len() as int) =~= message@.skip(
                start as int,
            ));
        }
        Commit { id, parents, author, committer, message_title: title, message_body: body, tree }
    }

    /// Whether the commit has two or more parents.
    pub fn is_merge(&self) -> (r: bool)
        ensures
            r == (self.parents@.len() >= 2),
    {
        self.parents.len() >= 2
    }
}

/// What kind of entry a path names in a tree.
#[derive(Clone, Copy, Debug, PartialEq, Eq, Structural)]
pub enum EntryMode {
    /// A regular file.
    File,
    /// An executable file.
    Executable,
    /// A symbolic link.
    Symlink,
    /// A directory.
    Tree,
    /// A commit of another repository: a submodule.
    Submodule,
}

/// One path that differs between the tree of a commit and that of its parent.
///
/// Renames are not tracked: one shows as a deletion and an addition.
#[derive(Clone, Debug)]
pub enum TreeChange {
    Addition { path: Vec<u8>, entry_mode: EntryMode, new_id: ObjectId },
    Deletion { path: Vec<u8>, entry_mode: EntryMode, old_id: ObjectId },
    Modification {
        path: Vec<u8>,
        old_mode: EntryMode,
        new_mode: EntryMode,
        old_id: ObjectId,
        new_id: ObjectId,
        /// The bytes of the object on the parent's side. Empty for a tree or
        /// a submodule, which have none to compare.
        old_content: Vec<u8>,
        /// The bytes of the object on the commit's side.
        new_content: Vec<u8>,
    },
    Rewrite {
        old_path: Vec<u8>,
        new_path: Vec<u8>,
        old_mode: EntryMode,
        new_mode: EntryMode,
        old_id: ObjectId,
        new_id: ObjectId,
    },
}

/// What the walk yields for one commit: the commit, and the paths in which
/// its tree differs from that of its only parent, in path order.
///
/// For a commit without a parent, or one whose parent cannot be read, the
/// changes are those against the empty tree. The changes of a merge are never
/// looked at.
#[derive(Clone, Debug)]
pub struct WalkItem {
    pub commit: Commit,
    pub changes: Vec<TreeChange>,
}

} // verus!
