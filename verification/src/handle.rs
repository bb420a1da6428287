//! A file that is opened when it is first needed.

use vstd::prelude::*;

verus! {

/// A file known by its path, which has been opened or has not been yet.
///
/// It starts as a path. The first call of `open` that succeeds opens the file
/// and keeps the handle beside the path; from then on the handle is there and
/// the file is not opened again.
pub enum PathOrFile<P, F> {
    /// The file has not been opened.
    Path(P),
    /// The file has been opened: its path and the handle.
    File(P, F),
}

impl<P, F> PathOrFile<P, F> {
    /// The path of the file.
    pub open spec fn spec_path(&self) -> P {
        match self {
            PathOrFile::Path(p) => *p,
            PathOrFile::File(p, _) => *p,
        }
    }

    /// A file at `path` that has not been opened.
    pub fn new(path: P) -> (r: Self)
        ensures
            r == PathOrFile::<P, F>::Path(path),
    {
        PathOrFile::Path(path)
    }

    /// The path of the file.
    pub fn path(&self) -> (p: &P)
        ensures
            *p == self.spec_path(),
    {
        match self {
            PathOrFile::Path(p) => p,
            PathOrFile::File(p, _) => p,
        }
    }

    /// Whether the file has been opened.
    pub fn is_open(&self) -> (r: bool)
        ensures
            r == (self is File),
    {
        match self {
            PathOrFile::Path(_) => false,
            PathOrFile::File(_, _) => true,
        }
    }

}

impl<P: Default, F> PathOrFile<P, F> {
    /// Makes sure that the file is open and hands out its handle.
    ///
    /// A file that is open stays as it is, and `opener` is not called. A file
    /// that is not is opened by one call of `opener` on its path: if that
    /// succeeds the handle is kept, and if it fails the error is returned and
    /// the file stays unopened.
    pub fn open<E, O: FnOnce(&P) -> Result<F, E>>(&mut self, opener: O) -> (r: Result<&mut F, E>)
        requires
            *old(self) matches PathOrFile::Path(p) ==> opener.requires((&p,)),
        ensures
            match *old(self) {
                PathOrFile::File(p, f) => r matches Ok(handle) && *handle == f && *final(self)
                    == PathOrFile::File(p, *final(handle)),
                PathOrFile::Path(p) => match r {
                    Ok(handle) => opener.ensures((&p,), Ok(*handle)) && *final(self)
                        == PathOrFile::File(p, *final(handle)),
                    Err(e) => opener.ensures((&p,), Err(e)) && *final(self) == *old(self),
                },
            },
    {
        let mut slot: PathOrFile<P, F> = PathOrFile::Path(P::default());
        std::mem::swap(self, &mut slot);
        match slot {
            PathOrFile::File(p, f) => {
                *self = PathOrFile::File(p, f);
            },
            PathOrFile::Path(p) => match opener(&p) {
                Ok(f) => {
                    *self = PathOrFile::File(p, f);
                },
                Err(e) => {
                    *self = PathOrFile::Path(p);
                    return Err(e);
                },
            },
        }
        match self {
            PathOrFile::File(_, f) => Ok(f),
            PathOrFile::Path(_) => vstd::pervasive::unreached(),
        }
    }
}

} // verus!
