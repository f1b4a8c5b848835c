//! Conversion between native byte strings and the null-terminated buffers
//! that cross the foreign boundary.
//!
//! A [`CBuffer`] owns one well-formed foreign string: its content followed
//! by a single terminating zero byte, with no zero byte inside the content.
//! Encoding fails exactly on content that a terminated buffer cannot carry.
//! An array of strings crosses the boundary as one buffer per element plus
//! an element count; each element is independently owned.

use vstd::prelude::*;
use vstd::string::StringSliceAdditionalSpecFns;

verus! {

/// Whether a byte string can be carried in a null-terminated buffer.
pub open spec fn nul_free(data: Seq<u8>) -> bool {
    forall|k: int| 0 <= k < data.len() ==> data[k] != 0
}

/// An owned, well-formed null-terminated byte buffer.
pub struct CBuffer {
    bytes: Vec<u8>,
}

impl CBuffer {
    /// The buffer ends in its only zero byte.
    pub closed spec fn wf(self) -> bool {
        self.bytes@.len() >= 1 && self.bytes@.last() == 0 && nul_free(self.bytes@.drop_last())
    }

    /// The content carried before the terminator.
    pub closed spec fn content(self) -> Seq<u8> {
        self.bytes@.drop_last()
    }

    /// Encodes a byte string by appending the terminator. Fails exactly
    /// when the data already holds a zero byte.
    pub fn encode(data: &[u8]) -> (r: Option<CBuffer>)
        ensures
            r is Some <==> nul_free(data@),
            r matches Some(c) ==> c.wf() && c.content() == data@,
    {
        let n = data.len();
        let mut bytes: Vec<u8> = Vec::new();
        let mut i: usize = 0;
        proof {
            assert(data@.take(0) =~= Seq::<u8>::empty());
        }
        while i < n
            invariant
                i <= n,
                n == data@.len(),
                bytes@ == data@.take(i as int),
                nul_free(data@.take(i as int)),
            decreases n - i,
        {
            let b = data[i];
            if b == 0 {
                return None;
            }
            bytes.push(b);
            proof {
                assert(data@.take(i + 1) =~= data@.take(i as int).push(data@[i as int]));
            }
            i += 1;
        }
        proof {
            assert(data@.take(n as int) =~= data@);
        }
        bytes.push(0);
        let c = CBuffer { bytes };
        proof {
            assert(c.bytes@.drop_last() =~= data@);
        }
        Some(c)
    }

    /// Encodes native text; the text's UTF-8 bytes become the content.
    pub fn from_text(s: &str) -> (r: Option<CBuffer>)
        ensures
            r is Some <==> nul_free(s.spec_bytes()),
            r matches Some(c) ==> c.wf() && c.content() == s.spec_bytes(),
    {
        CBuffer::encode(s.as_bytes())
    }

    /// Reads the content back out of a buffer, without the terminator.
    pub fn decode(&self) -> (r: Vec<u8>)
        requires
            self.wf(),
        ensures
            r@ == self.content(),
            nul_free(r@),
    {
        let n = self.bytes.len() - 1;
        let mut r: Vec<u8> = Vec::new();
        let mut i: usize = 0;
        proof {
            assert(self.content().take(0) =~= Seq::<u8>::empty());
        }
        while i < n
            invariant
                i <= n,
                n == self.bytes@.len() - 1,
                r@ == self.content().take(i as int),
                self.wf(),
            decreases n - i,
        {
            r.push(self.bytes[i]);
            proof {
                assert(self.content()[i as int] == self.bytes@[i as int]);
                assert(self.content().take(i + 1) =~= self.content().take(i as int).push(
                    self.content()[i as int],
                ));
            }
            i += 1;
        }
        proof {
            assert(self.content().take(n as int) =~= self.content());
        }
        r
    }

    /// Surrenders the raw bytes, terminator included, for the final handoff
    /// across the boundary. The buffer is consumed: ownership transfers
    /// exactly once.
    pub fn into_bytes(self) -> (r: Vec<u8>)
        requires
            self.wf(),
        ensures
            r@ == self.content().push(0),
            r@.len() >= 1,
    {
        let r = self.bytes;
        proof {
            assert(r@ =~= self.content().push(0));
        }
        r
    }
}

/// Encodes a sequence of byte strings as one buffer per element. Fails
/// exactly when some element holds a zero byte; no partial array escapes.
pub fn encode_array(items: &Vec<Vec<u8>>) -> (r: Option<Vec<CBuffer>>)
    ensures
        r is Some <==> (forall|j: int|
            0 <= j < items.deep_view().len() ==> nul_free(#[trigger] items.deep_view()[j])),
        r matches Some(v) ==> v@.len() == items.deep_view().len() && (forall|j: int|
            0 <= j < v@.len() ==> (#[trigger] v@[j]).wf() && v@[j].content()
                == items.deep_view()[j]),
{
    let n = items.len();
    let mut out: Vec<CBuffer> = Vec::new();
    let mut i: usize = 0;
    while i < n
        invariant
            i <= n,
            n == items.deep_view().len(),
            out@.len() == i,
            forall|j: int|
                0 <= j < i ==> (#[trigger] out@[j]).wf() && out@[j].content()
                    == items.deep_view()[j],
            forall|j: int| 0 <= j < i ==> nul_free(#[trigger] items.deep_view()[j]),
        decreases n - i,
    {
        proof {
            assert(items.deep_view()[i as int] =~= items@[i as int]@);
        }
        let encoded = CBuffer::encode(items[i].as_slice());
        match encoded {
            Some(c) => {
                out.push(c);
            },
            None => {
                proof {
                    assert(!nul_free(items.deep_view()[i as int]));
                }
                return None;
            },
        }
        i += 1;
    }
    Some(out)
}

/// Reads a borrowed array of well-formed buffers back into byte strings.
pub fn decode_array(bufs: &Vec<CBuffer>) -> (r: Vec<Vec<u8>>)
    requires
        forall|j: int| 0 <= j < bufs@.len() ==> (#[trigger] bufs@[j]).wf(),
    ensures
        r.deep_view().len() == bufs@.len(),
        forall|j: int|
            0 <= j < bufs@.len() ==> #[trigger] r.deep_view()[j] == bufs@[j].content(),
{
    let n = bufs.len();
    let mut r: Vec<Vec<u8>> = Vec::new();
    let mut i: usize = 0;
    while i < n
        invariant
            i <= n,
            n == bufs@.len(),
            forall|j: int| 0 <= j < n ==> (#[trigger] bufs@[j]).wf(),
            r.deep_view().len() == i,
            forall|j: int| 0 <= j < i ==> #[trigger] r.deep_view()[j] == bufs@[j].content(),
        decreases n - i,
    {
        let ghost prev = r.deep_view();
        let item = bufs[i].decode();
        proof {
            assert(item.deep_view() =~= item@);
        }
        r.push(item);
        proof {
            assert(r.deep_view() =~= prev.push(bufs@[i as int].content()));
        }
        i += 1;
    }
    r
}

} // verus!
