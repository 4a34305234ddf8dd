//! Reading a session log incrementally: where the last read stopped, when
//! the file was replaced and must be read again from the start, and how a
//! chunk of bytes splits into complete lines.
use vstd::prelude::*;

verus! {

/// The most bytes read from a log at a time.
pub const CHUNK: usize = 256 * 1024;

/// The longest line kept: a longer line is skipped up to its end.
pub const MAX_LINE: usize = 1024 * 1024;

/// The storage kept for a partial line once a line is complete.
pub const RETAINED_LINE: usize = 16 * 1024;

/// The most bytes of a log's start remembered to recognise the file.
pub const PREFIX: u64 = 256;

/// The state of reading one log.
pub struct Cursor {
    offset: u64,
    partial: Vec<u8>,
    discarding: bool,
    identity: Option<String>,
    modified: Option<i128>,
    prefix: Vec<u8>,
}

/// The storage that a vector holds (`Vec::capacity`); it depends on the
/// allocator, so nothing is claimed of it.
#[verifier::external_body]
fn capacity(v: &Vec<u8>) -> usize {
    v.capacity()
}

/// `Vec::shrink_to`: the contents do not change.
#[verifier::external_body]
fn shrink_to(v: &mut Vec<u8>, keep: usize)
    ensures
        final(v)@ == old(v)@,
{
    v.shrink_to(keep);
}

/// Splits bytes into lines, starting from a partial line and whether the
/// current line is being skipped: each newline ends a line, which is kept
/// unless it was skipped; a line that grows past `MAX_LINE` bytes is
/// dropped and skipped to its end. The result is the kept lines, the
/// partial line left over, and whether it is being skipped.
pub open spec fn frame(partial: Seq<u8>, discarding: bool, bytes: Seq<u8>) -> (Seq<Seq<u8>>, Seq<u8>, bool)
    decreases bytes.len(),
{
    if bytes.len() == 0 {
        (seq![], partial, discarding)
    } else {
        let (lines, p, d) = frame(partial, discarding, bytes.drop_last());
        let b = bytes.last();
        if b == 10 {
            (if d { lines } else { lines.push(p) }, seq![], false)
        } else if d {
            (lines, p, d)
        } else if p.len() >= MAX_LINE {
            (lines, seq![], true)
        } else {
            (lines, p.push(b), false)
        }
    }
}

/// Whether a read must start over: the file is another one, it shrank below
/// what was read, its first bytes changed, or it was rewritten without
/// growing.
pub open spec fn must_reset(
    identity: Option<String>,
    offset: u64,
    prefix: Seq<u8>,
    modified: Option<i128>,
    new_identity: Seq<char>,
    len: u64,
    head: Seq<u8>,
    new_modified: Option<i128>,
) -> bool {
    !(identity is Some && identity.unwrap()@ == new_identity) || len < offset || head != prefix || (len
        == offset && modified is Some && new_modified != modified)
}

impl Default for Cursor {
    /// A cursor at the start of an unknown file.
    fn default() -> (c: Self)
        ensures
            c.position() == 0,
            c.pending()@.len() == 0,
            !c.skipping(),
            c.known() is None,
            c.stamp() is None,
            c.head()@.len() == 0,
    {
        Cursor {
            offset: 0,
            partial: Vec::new(),
            discarding: false,
            identity: None,
            modified: None,
            prefix: Vec::new(),
        }
    }
}

impl Cursor {
    /// How far the file has been read.
    pub closed spec fn position(&self) -> u64 {
        self.offset
    }

    /// The partial line read so far.
    pub closed spec fn pending(&self) -> Vec<u8> {
        self.partial
    }

    /// Whether the current line is being skipped.
    pub closed spec fn skipping(&self) -> bool {
        self.discarding
    }

    /// The identity of the file last read.
    pub closed spec fn known(&self) -> Option<String> {
        self.identity
    }

    /// When the file last read was modified.
    pub closed spec fn stamp(&self) -> Option<i128> {
        self.modified
    }

    /// The first bytes of the file, as remembered.
    pub closed spec fn head(&self) -> Vec<u8> {
        self.prefix
    }

    /// How far the file has been read.
    pub fn offset(&self) -> (o: u64)
        ensures
            o == self.position(),
    {
        self.offset
    }

    /// How many first bytes are remembered.
    pub fn prefix_len(&self) -> (n: usize)
        ensures
            n == self.head()@.len(),
    {
        self.prefix.len()
    }

    /// Empties the partial line and gives back storage above
    /// `RETAINED_LINE`.
    pub fn clear_partial(&mut self)
        ensures
            final(self).pending()@.len() == 0,
            final(self).position() == old(self).position(),
            final(self).skipping() == old(self).skipping(),
            final(self).known() == old(self).known(),
            final(self).stamp() == old(self).stamp(),
            final(self).head() == old(self).head(),
    {
        self.partial.clear();
        if capacity(&self.partial) > RETAINED_LINE {
            shrink_to(&mut self.partial, RETAINED_LINE);
        }
    }

    /// Takes in what the file is now, given its first bytes as far as they
    /// were remembered (`head`), and answers whether reading starts over.
    pub fn begin(&mut self, identity: String, len: u64, modified: Option<i128>, head: &[u8]) -> (reset: bool)
        ensures
            reset == must_reset(
                old(self).known(),
                old(self).position(),
                old(self).head()@,
                old(self).stamp(),
                identity@,
                len,
                head@,
                modified,
            ),
            final(self).known() == Some(identity),
            final(self).stamp() == modified,
            reset ==> final(self).position() == 0 && final(self).pending()@.len() == 0
                && !final(self).skipping() && final(self).head()@.len() == 0,
            !reset ==> final(self).position() == old(self).position() && final(self).pending()
                == old(self).pending() && final(self).skipping() == old(self).skipping()
                && final(self).head() == old(self).head(),
    {
        let same_file = match &self.identity {
            Some(known) => *known == identity,
            None => false,
        };
        let same_head = bytes_equal(head, self.prefix.as_slice());
        let rewritten = len == self.offset && self.modified.is_some() && modified != self.modified;
        let reset = !same_file || len < self.offset || !same_head || rewritten;
        if reset {
            self.offset = 0;
            self.partial = Vec::new();
            self.discarding = false;
            self.prefix = Vec::new();
        }
        self.identity = Some(identity);
        self.modified = modified;
        reset
    }

    /// Whether the file's first bytes must be read and remembered.
    pub fn needs_prefix(&self, len: u64) -> (needed: bool)
        ensures
            needed == (self.head()@.len() == 0 && len > 0),
    {
        self.prefix.len() == 0 && len > 0
    }

    /// Remembers the file's first bytes.
    pub fn set_prefix(&mut self, bytes: Vec<u8>)
        ensures
            final(self).head() == bytes,
            final(self).position() == old(self).position(),
            final(self).pending() == old(self).pending(),
            final(self).skipping() == old(self).skipping(),
            final(self).known() == old(self).known(),
            final(self).stamp() == old(self).stamp(),
    {
        self.prefix = bytes;
    }

    /// Takes in the next bytes of the file: the position advances past
    /// them, and the complete lines among them (with the partial line held
    /// before) come out.
    pub fn feed(&mut self, bytes: &[u8]) -> (lines: Vec<Vec<u8>>)
        requires
            old(self).position() + bytes@.len() <= u64::MAX,
        ensures
            ({
                let (ls, p, d) = frame(old(self).pending()@, old(self).skipping(), bytes@);
                &&& lines@.map_values(|l: Vec<u8>| l@) == ls
                &&& final(self).pending()@ == p
                &&& final(self).skipping() == d
            }),
            final(self).position() == old(self).position() + bytes@.len(),
            final(self).known() == old(self).known(),
            final(self).stamp() == old(self).stamp(),
            final(self).head() == old(self).head(),
    {
        let ghost start = self.partial@;
        let ghost skip = self.discarding;
        self.offset = self.offset + bytes.len() as u64;
        let mut lines: Vec<Vec<u8>> = Vec::new();
        let mut i: usize = 0;
        while i < bytes.len()
            invariant
                i <= bytes@.len(),
                ({
                    let (ls, p, d) = frame(start, skip, bytes@.take(i as int));
                    &&& lines@.map_values(|l: Vec<u8>| l@) == ls
                    &&& self.partial@ == p
                    &&& self.discarding == d
                }),
                self.offset == old(self).position() + bytes@.len(),
                self.identity == old(self).known(),
                self.modified == old(self).stamp(),
                self.prefix == old(self).head(),
            decreases bytes@.len() - i,
        {
            let b = bytes[i];
            proof {
                assert(bytes@.take(i + 1).drop_last() =~= bytes@.take(i as int));
                assert(bytes@.take(i + 1).last() == b);
            }
            let ghost before = lines@;
            if b == 10 {
                if !self.discarding {
                    let line = self.partial.clone();
                    proof {
                        assert(line@ == self.partial@);
                    }
                    lines.push(line);
                    proof {
                        assert(lines@.map_values(|l: Vec<u8>| l@) =~= before.map_values(|l: Vec<u8>| l@).push(line@));
                    }
                }
                self.clear_partial();
                self.discarding = false;
            } else if !self.discarding {
                if self.partial.len() >= MAX_LINE {
                    self.clear_partial();
                    self.discarding = true;
                } else {
                    self.partial.push(b);
                }
            }
            proof {
                let (ls, p, d) = frame(start, skip, bytes@.take(i + 1));
                assert(self.partial@ =~= p);
            }
            i = i + 1;
        }
        proof {
            assert(bytes@.take(bytes@.len() as int) =~= bytes@);
        }
        lines
    }
}

fn bytes_equal(a: &[u8], b: &[u8]) -> (same: bool)
    ensures
        same == (a@ == b@),
{
    if a.len() != b.len() {
        return false;
    }
    let mut i: usize = 0;
    while i < a.len()
        invariant
            a@.len() == b@.len(),
            i <= a@.len(),
            forall|j: int| 0 <= j < i ==> a@[j] == b@[j],
        decreases a@.len() - i,
    {
        if a[i] != b[i] {
            return false;
        }
        i = i + 1;
    }
    proof {
        assert(a@ =~= b@);
    }
    true
}

/// Reading bytes in two pieces gives what reading them at once gives: the
/// partial line and the skipping carry over from one piece to the next.
pub proof fn lemma_frame_split(partial: Seq<u8>, discarding: bool, a: Seq<u8>, b: Seq<u8>)
    ensures
        ({
            let (l1, p1, d1) = frame(partial, discarding, a);
            let (l2, p2, d2) = frame(p1, d1, b);
            frame(partial, discarding, a + b) == (l1 + l2, p2, d2)
        }),
    decreases b.len(),
{
    if b.len() == 0 {
        assert(a + b =~= a);
        let (l1, p1, d1) = frame(partial, discarding, a);
        assert(l1 + seq![] =~= l1);
    } else {
        lemma_frame_split(partial, discarding, a, b.drop_last());
        assert((a + b).drop_last() =~= a + b.drop_last());
        assert((a + b).last() == b.last());
        let (l1, p1, d1) = frame(partial, discarding, a);
        let (l2, p2, d2) = frame(p1, d1, b.drop_last());
        assert((l1 + l2).push(p2) =~= l1 + l2.push(p2));
    }
}

/// Lines come out without their newline and never longer than `MAX_LINE`
/// bytes, and the partial line stays within that bound too.
pub proof fn lemma_frame_bounded(partial: Seq<u8>, discarding: bool, bytes: Seq<u8>)
    requires
        partial.len() <= MAX_LINE,
        !partial.contains(10u8),
    ensures
        ({
            let (lines, p, _) = frame(partial, discarding, bytes);
            &&& p.len() <= MAX_LINE
            &&& !p.contains(10u8)
            &&& forall|i: int| 0 <= i < lines.len() ==> (#[trigger] lines[i]).len() <= MAX_LINE && !lines[i].contains(10u8)
        }),
    decreases bytes.len(),
{
    if bytes.len() > 0 {
        lemma_frame_bounded(partial, discarding, bytes.drop_last());
        let (lines, p, d) = frame(partial, discarding, bytes.drop_last());
        let b = bytes.last();
        if b != 10 && !d && p.len() < MAX_LINE {
            assert forall|x: u8| p.push(b).contains(x) implies x != 10 || p.contains(x) by {
                if p.push(b).contains(x) {
                    let k = choose|k: int| 0 <= k < p.push(b).len() && p.push(b)[k] == x;
                    if k < p.len() {
                        assert(p[k] == x);
                    }
                }
            }
        }
        if b == 10 && !d {
            assert forall|i: int| 0 <= i < lines.push(p).len() implies (#[trigger] lines.push(p)[i]).len() <= MAX_LINE
                && !lines.push(p)[i].contains(10u8) by {
                if i < lines.len() {
                    assert(lines.push(p)[i] == lines[i]);
                }
            }
        }
    }
}

} // verus!
