//! The file object the data-storage app writes through. The real
//! implementation is supplied by the environment; a stub that swallows
//! writes serves targets without a filesystem.
use vstd::prelude::*;

verus! {

/// A failed file operation.
#[derive(Clone, Copy, PartialEq, Eq, Debug, Structural)]
pub struct FileError;

/// Rotation settings for a storage file (reserved for environments that
/// rotate by size or age).
#[derive(Clone, Copy, PartialEq, Eq, Debug, Structural)]
pub struct DsFileSettings {
    pub max_size: u32,
    pub max_age: u32,
    pub enabled: bool,
}

/// A lazily opened output file under a directory. `write` opens a fresh
/// timestamped file on first use; `close` drops the handle; `flush` is
/// best-effort. The environment supplies the implementation; on targets
/// without a filesystem writes report zero bytes. A file whose accepted
/// bytes are observable exposes them through `model`, as the log of the
/// buffers whose writes succeeded; implementations outside the verifier
/// keep the default.
pub trait DsFile: Sized {
    /// The log of accepted buffers, where the file has one.
    open spec fn model(&self) -> Option<Seq<Seq<u8>>> {
        None
    }

    fn new(dir: String) -> Self;

    fn close(&mut self)
        ensures
            final(self).model() == old(self).model(),
    ;

    fn open(&mut self)
        ensures
            final(self).model() == old(self).model(),
    ;

    fn write(&mut self, buf: &[u8]) -> (r: Result<usize, FileError>)
        ensures
            old(self).model() matches Some(log) ==> final(self).model() == Some(
                if r is Ok {
                    log.push(buf@)
                } else {
                    log
                },
            ),
    ;

    fn flush(&mut self) -> (r: Result<(), FileError>)
        ensures
            final(self).model() == old(self).model(),
    ;
}

/// The no-filesystem stub: writes are swallowed (and report zero bytes)
/// but recorded, so the log stays observable.
pub struct StubDsFile {
    pub dir: String,
    written: Vec<Vec<u8>>,
}

impl DsFile for StubDsFile {
    closed spec fn model(&self) -> Option<Seq<Seq<u8>>> {
        Some(self.written.deep_view())
    }

    fn new(dir: String) -> Self {
        StubDsFile { dir, written: Vec::new() }
    }

    fn close(&mut self) {
    }

    fn open(&mut self) {
    }

    fn write(&mut self, buf: &[u8]) -> (r: Result<usize, FileError>) {
        let ghost pre = self.written.deep_view();
        let mut copy: Vec<u8> = Vec::new();
        let mut i: usize = 0;
        while i < buf.len()
            invariant
                i <= buf@.len(),
                copy@ == buf@.take(i as int),
            decreases buf@.len() - i,
        {
            copy.push(buf[i]);
            proof {
                assert(buf@.take(i + 1) =~= buf@.take(i as int).push(buf@[i as int]));
            }
            i = i + 1;
        }
        proof {
            assert(copy@ =~= buf@);
        }
        let ghost cdv = copy@;
        let ghost cval = copy;
        self.written.push(copy);
        proof {
            assert(self.written@ == old(self).written@.push(cval));
            assert forall|k: int|
                0 <= k < self.written.deep_view().len() implies self.written.deep_view()[k] == (
            pre.push(cdv))[k] by {
                if k < pre.len() {
                    assert(self.written@[k] == old(self).written@[k]);
                } else {
                    assert(self.written@[k] == cval);
                }
            }
            assert(self.written.deep_view() =~= pre.push(cdv));
        }
        Ok(0)
    }

    fn flush(&mut self) -> (r: Result<(), FileError>) {
        Ok(())
    }
}

} // verus!
