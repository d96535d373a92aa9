//! Telling HTTP/2 from HTTP/1 by the first bytes of a connection.
//!
//! A client that speaks HTTP/2 opens with a fixed preface of 24 bytes. The
//! connection counts as HTTP/2 until the bytes read so far differ from the
//! preface, or the stream ends before the preface is complete.

use vstd::prelude::*;

verus! {

#[derive(Debug, Clone, Copy, PartialEq, Eq)]
pub enum Version {
    H1,
    H2,
}

/// `PRI * HTTP/2.0\r\n\r\nSM\r\n\r\n`
pub const H2_PREFACE: [u8; 24] = [
    0x50, 0x52, 0x49, 0x20, 0x2a, 0x20, 0x48, 0x54, 0x54, 0x50, 0x2f, 0x32, 0x2e, 0x30, 0x0d,
    0x0a, 0x0d, 0x0a, 0x53, 0x4d, 0x0d, 0x0a, 0x0d, 0x0a,
];

/// Reading the version of a connection.
#[derive(Debug)]
pub struct ReadVersion {
    /// The bytes read so far; they are replayed to whoever serves the connection.
    pub buf: Vec<u8>,
    pub version: Version,
}

impl ReadVersion {
    /// The bytes read so far are a prefix of the preface.
    pub open spec fn matches_preface(self) -> bool {
        self.buf@.len() <= 24 && self.buf@ == H2_PREFACE@.take(self.buf@.len() as int)
    }

    /// The version is still open as long as it is `H2`, fewer than 24
    /// bytes were read, and these are the beginning of the preface.
    pub open spec fn wf(self) -> bool {
        self.buf@.len() <= 24 && (self.version == Version::H2 ==> self.matches_preface())
    }

    /// Whether the version is decided.
    pub open spec fn spec_is_done(&self) -> bool {
        self.version == Version::H1 || self.buf@.len() >= 24
    }

    /// Nothing was read yet. A connection starts as HTTP/2.
    pub fn new() -> (read: Self)
        ensures
            read.buf@.len() == 0,
            read.version == Version::H2,
            read.wf(),
            !read.spec_is_done(),
    {
        let read = ReadVersion { buf: Vec::new(), version: Version::H2 };
        assert(read.buf@ == H2_PREFACE@.take(0));
        read
    }

    #[verifier::when_used_as_spec(spec_is_done)]
    pub fn is_done(&self) -> (done: bool)
        ensures
            done == self.spec_is_done(),
    {
        match self.version {
            Version::H1 => true,
            Version::H2 => self.buf.len() >= 24,
        }
    }

    /// How many more bytes are to be read at most.
    pub fn wanted(&self) -> (n: usize)
        requires
            self.wf(),
        ensures
            n == if self.spec_is_done() {
                0
            } else {
                24 - self.buf@.len()
            },
    {
        if self.is_done() {
            0
        } else {
            24 - self.buf.len()
        }
    }

    /// Takes the bytes of one read. No bytes mean that the stream has
    /// ended. The connection is HTTP/1 from the first read on that ends
    /// the stream or does not continue the preface.
    pub fn received(&mut self, data: &[u8])
        requires
            old(self).wf(),
            !old(self).spec_is_done(),
            data@.len() <= 24 - old(self).buf@.len(),
        ensures
            final(self).wf(),
            final(self).buf@ == old(self).buf@ + data@,
            final(self).version == Version::H2 <==> data@.len() > 0 && data@
                == H2_PREFACE@.subrange(
                old(self).buf@.len() as int,
                (old(self).buf@.len() + data@.len()) as int,
            ),
    {
        let len = self.buf.len();
        let n = data.len();
        let mut same = true;
        let mut i: usize = 0;
        proof {
            assert(H2_PREFACE@.len() == 24);
            assert(data@.take(0) =~= H2_PREFACE@.subrange(len as int, len as int));
            assert(self.buf@ =~= old(self).buf@ + data@.take(0));
        }
        while i < n
            invariant
                i <= n,
                self.version == Version::H2,
                H2_PREFACE@.len() == 24,
                n == data@.len(),
                len + n <= 24,
                len == old(self).buf@.len(),
                self.buf@ == old(self).buf@ + data@.take(i as int),
                same <==> data@.take(i as int) == H2_PREFACE@.subrange(len as int, len + i),
            decreases n - i,
        {
            let byte = data[i];
            proof {
                let preface = H2_PREFACE@;
                assert(data@.take(i + 1) == data@.take(i as int).push(byte));
                assert(preface.subrange(len as int, len + i + 1) == preface.subrange(
                    len as int,
                    len + i,
                ).push(preface[len + i]));
                if data@.take(i + 1) == preface.subrange(len as int, len + i + 1) {
                    assert(data@.take(i + 1).drop_last() == data@.take(i as int));
                    assert(preface.subrange(len as int, len + i + 1).drop_last()
                        == preface.subrange(len as int, len + i));
                    assert(data@.take(i + 1).last() == byte);
                }
            }
            if byte != H2_PREFACE[len + i] {
                same = false;
            }
            self.buf.push(byte);
            i = i + 1;
        }
        proof {
            assert(data@.take(n as int) == data@);
            if same && n > 0 {
                assert(self.buf@ =~= H2_PREFACE@.take(len + n));
            }
        }
        if n == 0 || !same {
            self.version = Version::H1;
        }
    }
}

/// A connection is served as HTTP/2 exactly if its first 24 bytes are the preface.
pub proof fn lemma_h2_means_preface(read: ReadVersion)
    requires
        read.wf(),
        read.spec_is_done(),
    ensures
        read.version == Version::H2 <==> read.version != Version::H1,
        read.version == Version::H2 ==> read.buf@ == H2_PREFACE@,
{
    if read.version == Version::H2 {
        assert(H2_PREFACE@.take(24) == H2_PREFACE@);
    }
}

} // verus!
