//! Small adapters that let heterogeneous streams be handled uniformly.
use vstd::prelude::*;

verus! {

/// The error that std's `Read` and `Write` report; carried through untouched.
#[verifier::external_type_specification]
#[verifier::external_body]
pub struct ExIoError(std::io::Error);

/// A raw operating-system handle (a file descriptor).
pub type RawObject = i32;

/// Wrapper around a `Vec<T>` to make it readable with the standard `Read` trait.
pub struct ReadableVec<T>(pub Vec<T>);

impl std::io::Read for ReadableVec<u8> {
    /// Relies on `<&[u8] as Read>::read`: copies the leading bytes of the
    /// vector into `buf`. Each call starts again from the first byte.
    #[verifier::external_body]
    fn read(&mut self, buf: &mut [u8]) -> std::io::Result<usize> {
        (&self.0[..]).read(buf)
    }
}

/// A reader paired with the raw handle it reads from, if it has one.
pub struct UtilReadDyn<R> {
    pub inner: R,
    fd: Option<RawObject>,
}

impl<R> UtilReadDyn<R> {
    /// The wrapped reader.
    pub closed spec fn spec_inner(&self) -> R {
        self.inner
    }

    /// The raw handle recorded for the reader.
    pub closed spec fn spec_fd(&self) -> Option<RawObject> {
        self.fd
    }

    pub fn new(inner: R, fd: Option<RawObject>) -> (r: Self)
        ensures
            r.spec_inner() == inner,
            r.spec_fd() == fd,
    {
        Self { inner: inner, fd: fd }
    }

    pub fn fd(&self) -> (r: Option<RawObject>)
        ensures
            r == self.spec_fd(),
    {
        self.fd
    }
}

/// A writer paired with the raw handle it writes to, if it has one.
pub struct UtilWriteDyn<W> {
    pub inner: W,
    fd: Option<RawObject>,
}

impl<W> UtilWriteDyn<W> {
    /// The wrapped writer.
    pub closed spec fn spec_inner(&self) -> W {
        self.inner
    }

    /// The raw handle recorded for the writer.
    pub closed spec fn spec_fd(&self) -> Option<RawObject> {
        self.fd
    }

    pub fn new(inner: W, fd: Option<RawObject>) -> (r: Self)
        ensures
            r.spec_inner() == inner,
            r.spec_fd() == fd,
    {
        Self { inner: inner, fd: fd }
    }

    pub fn fd(&self) -> (r: Option<RawObject>)
        ensures
            r == self.spec_fd(),
    {
        self.fd
    }
}

impl<R: std::io::Read> std::io::Read for UtilReadDyn<R> {
    /// Relies on the inner reader's `Read::read`.
    #[verifier::external_body]
    fn read(&mut self, buf: &mut [u8]) -> std::io::Result<usize> {
        self.inner.read(buf)
    }
}

impl<W: std::io::Write> std::io::Write for UtilWriteDyn<W> {
    /// Relies on the inner writer's `Write::write`.
    #[verifier::external_body]
    fn write(&mut self, buf: &[u8]) -> std::io::Result<usize> {
        self.inner.write(buf)
    }

    /// Relies on the inner writer's `Write::flush`.
    #[verifier::external_body]
    fn flush(&mut self) -> std::io::Result<()> {
        self.inner.flush()
    }
}

} // verus!
