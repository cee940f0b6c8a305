//! Output of commands, watched for the marker of a kernel panic.

use crate::text;
use vstd::prelude::*;
use vstd::string::*;

verus! {

/// Marker of a kernel panic in the output of a command.
pub open spec fn panic_marker() -> Seq<char> {
    "Kernel panic"@
}

/// Whether the marker of a kernel panic stands in the text.
pub open spec fn shows_panic(s: Seq<char>) -> bool {
    text::contains_text(s, panic_marker())
}

fn marker_chars() -> (v: Vec<char>)
    ensures
        v@ == panic_marker(),
        v@.len() == 12,
{
    proof {
        reveal_strlit("Kernel panic");
    }
    text::chars_of("Kernel panic")
}

/// A marker that comes with a new chunk ends inside the chunk.
proof fn marker_in_tail(before: Seq<char>, chunk: Seq<char>, marker: Seq<char>, from: int)
    requires
        !text::contains_text(before, marker),
        from <= before.len() - marker.len() || from == 0,
        0 <= from,
    ensures
        text::contains_text(before + chunk, marker) <==> exists|at: int|
            from <= at && text::occurs_at(before + chunk, marker, at),
{
    let all = before + chunk;
    if text::contains_text(all, marker) {
        let at = choose|at: int| text::occurs_at(all, marker, at);
        if at < from {
            assert(before.subrange(at, at + marker.len()) =~= all.subrange(
                at,
                at + marker.len(),
            ));
            assert(text::occurs_at(before, marker, at));
        }
    }
}

/// Text that grows chunk by chunk, with detection of the panic marker.
///
/// Only a new chunk, and as much text in front of it as the marker is long,
/// is searched: a marker split between two chunks is found all the same.
#[derive(Debug)]
pub struct OutputCollector {
    buf: Vec<char>,
    panic: bool,
}

impl OutputCollector {
    /// Text collected so far.
    pub closed spec fn collected(self) -> Seq<char> {
        self.buf@
    }

    #[verifier::type_invariant]
    spec fn panic_is_seen(self) -> bool {
        self.panic == shows_panic(self.buf@)
    }

    /// Create an empty collector.
    pub fn new() -> (r: Self)
        ensures
            r.collected() == Seq::<char>::empty(),
    {
        proof {
            reveal_strlit("Kernel panic");
            assert forall|at: int| !text::occurs_at(Seq::<char>::empty(), panic_marker(), at) by {}
        }
        OutputCollector { buf: Vec::new(), panic: false }
    }

    /// Append a chunk.
    pub fn push(&mut self, chunk: &str)
        ensures
            final(self).collected() == old(self).collected() + chunk@,
    {
        proof {
            use_type_invariant(&*self);
        }
        let marker = marker_chars();
        let mut fresh = OutputCollector::new();
        std::mem::swap(self, &mut fresh);
        let mut buf = fresh.buf;
        let ghost before = buf@;
        let size: usize = buf.len();
        let from: usize = size.saturating_sub(marker.len());
        let mut added = text::chars_of(chunk);
        buf.append(&mut added);
        let mut panic = fresh.panic;
        if !panic {
            proof {
                marker_in_tail(before, chunk@, marker@, from as int);
            }
            panic = text::find_from(&buf, &marker, from).is_some();
        } else {
            proof {
                let at = choose|at: int| text::occurs_at(before, marker@, at);
                assert(buf@.subrange(at, at + marker@.len()) =~= before.subrange(
                    at,
                    at + marker@.len(),
                ));
                assert(text::occurs_at(buf@, marker@, at));
            }
        }
        *self = OutputCollector { buf, panic };
    }

    /// Whether the panic marker stands in what was collected.
    pub fn panicked(&self) -> (r: bool)
        ensures
            r == shows_panic(self.collected()),
    {
        proof {
            use_type_invariant(self);
        }
        self.panic
    }

    /// The text collected, and whether the panic marker stands in it.
    pub fn finish(self) -> (r: (String, bool))
        ensures
            r.0@ == self.collected(),
            r.1 == shows_panic(self.collected()),
    {
        proof {
            use_type_invariant(&self);
        }
        (text::text_of(&self.buf), self.panic)
    }
}

impl Default for OutputCollector {
    fn default() -> (r: Self)
        ensures
            r.collected() == Seq::<char>::empty(),
    {
        OutputCollector::new()
    }
}

/// Whether `needle` stands in `hay` at position `at`.
pub open spec fn bytes_at(hay: Seq<u8>, needle: Seq<u8>, at: int) -> bool {
    0 <= at && at + needle.len() <= hay.len() && hay.subrange(at, at + needle.len()) == needle
}

/// Whether the marker of a kernel panic stands in the bytes.
pub open spec fn bytes_show_panic(b: Seq<u8>) -> bool {
    exists|at: int| bytes_at(b, vstd::utf8::encode_utf8(panic_marker()), at)
}

fn bytes_stand_at(hay: &Vec<u8>, needle: &[u8], at: usize) -> (r: bool)
    requires
        at <= hay@.len(),
    ensures
        r == bytes_at(hay@, needle@, at as int),
{
    let end: usize = hay.len();
    if needle.len() > end - at {
        return false;
    }
    let mut i: usize = 0;
    while i < needle.len()
        invariant
            i <= needle@.len(),
            at + needle@.len() <= hay@.len(),
            hay@.len() == end,
            forall|j: int| 0 <= j < i ==> hay@[at + j] == needle@[j],
        decreases needle@.len() - i,
    {
        if hay[at + i] != needle[i] {
            assert(hay@.subrange(at as int, at + needle@.len())[i as int] != needle@[i as int]);
            return false;
        }
        i = i + 1;
    }
    assert(hay@.subrange(at as int, at + needle@.len()) =~= needle@);
    true
}

/// Whether the marker stands in `buf` at or after `from`.
fn bytes_show_panic_from(buf: &Vec<u8>, from: usize) -> (r: bool)
    requires
        from <= buf@.len(),
    ensures
        r == exists|at: int|
            from <= at && bytes_at(buf@, vstd::utf8::encode_utf8(panic_marker()), at),
{
    let needle = "Kernel panic".as_bytes();
    let mut i: usize = from;
    loop
        invariant
            from <= i <= buf@.len(),
            needle@ == vstd::utf8::encode_utf8(panic_marker()),
            forall|j: int| from <= j < i ==> !bytes_at(buf@, needle@, j),
        decreases buf@.len() - i,
    {
        if bytes_stand_at(buf, needle, i) {
            return true;
        }
        if i == buf.len() {
            return false;
        }
        i = i + 1;
    }
}

/// Bytes that grow chunk by chunk, with detection of the panic marker.
#[derive(Debug)]
pub struct ByteCollector {
    buf: Vec<u8>,
    panic: bool,
}

impl ByteCollector {
    /// Bytes collected so far.
    pub closed spec fn collected(self) -> Seq<u8> {
        self.buf@
    }

    #[verifier::type_invariant]
    spec fn panic_is_seen(self) -> bool {
        self.panic == bytes_show_panic(self.buf@)
    }

    /// Create an empty collector.
    pub fn new() -> (r: Self)
        ensures
            r.collected() == Seq::<u8>::empty(),
    {
        proof {
            reveal_strlit("Kernel panic");
            vstd::utf8::is_ascii_chars_encode_utf8(panic_marker());
            let needle = vstd::utf8::encode_utf8(panic_marker());
            assert(needle.len() == 12);
            assert forall|at: int| !bytes_at(Seq::<u8>::empty(), needle, at) by {}
        }
        ByteCollector { buf: Vec::new(), panic: false }
    }

    /// Append a chunk.
    pub fn push(&mut self, chunk: &[u8])
        ensures
            final(self).collected() == old(self).collected() + chunk@,
    {
        proof {
            use_type_invariant(&*self);
        }
        let mut fresh = ByteCollector::new();
        std::mem::swap(self, &mut fresh);
        let mut buf = fresh.buf;
        let ghost before = buf@;
        let ghost needle = vstd::utf8::encode_utf8(panic_marker());
        let size: usize = buf.len();
        let from: usize = size.saturating_sub("Kernel panic".as_bytes().len());
        let mut i: usize = 0;
        assert(before + chunk@.take(0) =~= before);
        while i < chunk.len()
            invariant
                i <= chunk@.len(),
                buf@ == before + chunk@.take(i as int),
            decreases chunk@.len() - i,
        {
            buf.push(chunk[i]);
            assert(before + chunk@.take(i + 1) =~= (before + chunk@.take(i as int)).push(
                chunk@[i as int],
            ));
            i = i + 1;
        }
        assert(chunk@.take(chunk@.len() as int) =~= chunk@);
        let mut panic = fresh.panic;
        if !panic {
            panic = bytes_show_panic_from(&buf, from);
            proof {
                if bytes_show_panic(buf@) {
                    let at = choose|at: int| bytes_at(buf@, needle, at);
                    if at < from {
                        assert(before.subrange(at, at + needle.len()) =~= buf@.subrange(
                            at,
                            at + needle.len(),
                        ));
                        assert(bytes_at(before, needle, at));
                    }
                }
            }
        } else {
            proof {
                let at = choose|at: int| bytes_at(before, needle, at);
                assert(buf@.subrange(at, at + needle.len()) =~= before.subrange(
                    at,
                    at + needle.len(),
                ));
                assert(bytes_at(buf@, needle, at));
            }
        }
        *self = ByteCollector { buf, panic };
    }

    /// Whether the panic marker stands in what was collected.
    pub fn panicked(&self) -> (r: bool)
        ensures
            r == bytes_show_panic(self.collected()),
    {
        proof {
            use_type_invariant(self);
        }
        self.panic
    }

    /// The bytes collected.
    pub fn bytes(&self) -> (r: &[u8])
        ensures
            r@ == self.collected(),
    {
        self.buf.as_slice()
    }
}

/// A kernel panic is seen wherever its words stand in the output, and no
/// output that is shorter than these shows one.
pub proof fn panics_are_seen(before: Seq<char>, after: Seq<char>)
    ensures
        shows_panic(before + "Kernel panic"@ + after),
        before.len() < 12 ==> !shows_panic(before),
        shows_panic(before) ==> shows_panic(before + after) && shows_panic(after + before),
{
    reveal_strlit("Kernel panic");
    let m = panic_marker();
    assert(m.len() == 12);
    let s = before + "Kernel panic"@ + after;
    let n = before.len() as int;
    assert(s.subrange(n, n + 12) =~= m);
    assert(text::occurs_at(s, m, n));
    if shows_panic(before) {
        let at = choose|at: int| text::occurs_at(before, m, at);
        assert((before + after).subrange(at, at + 12) =~= before.subrange(at, at + 12));
        assert(text::occurs_at(before + after, m, at));
        let k = after.len() + at;
        assert((after + before).subrange(k, k + 12) =~= before.subrange(at, at + 12));
        assert(text::occurs_at(after + before, m, k));
    }
}

} // verus!
