use vstd::prelude::*;

verus! {

/// The metadata of a resource kept as raw bytes: any content is valid and
/// building copies it unchanged.
#[derive(Debug, Clone, Copy, PartialEq, Eq, Structural)]
pub struct BytesMetadata {}

impl BytesMetadata {
    /// Constructs the metadata of a raw-bytes resource.
    pub fn new() -> (r: Self) {
        BytesMetadata {  }
    }

    /// Checks the content of the resource; every content is accepted.
    pub fn validate(&self, bytes: &[u8]) -> (r: Result<(), ()>)
        ensures
            r is Ok,
    {
        Ok(())
    }

    /// Writes the built form of `bytes` into `out`: the bytes themselves.
    pub fn build(&self, bytes: &[u8], out: &mut Vec<u8>)
        ensures
            final(out)@ == bytes@,
    {
        out.clear();
        let mut i: usize = 0;
        while i < bytes.len()
            invariant
                0 <= i <= bytes@.len(),
                out@ == bytes@.subrange(0, i as int),
            decreases bytes@.len() - i,
        {
            out.push(bytes[i]);
            i = i + 1;
        }
        assert(bytes@.subrange(0, bytes@.len() as int) =~= bytes@);
    }
}

} // verus!
