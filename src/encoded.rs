use vstd::prelude::*;

use crate::frame::MAX_DATA_LENGTH;

verus! {

/// Why a buffer cannot be sent as one message.
#[derive(Clone, Copy, Debug, PartialEq, Eq, Structural)]
pub enum EncodeError {
    /// The buffer is longer than the size ceiling; its length.
    TooLong(usize),
}

/// The bytes of an encoded message, never over the size ceiling.
#[derive(Clone, Debug)]
pub struct Encoded(Vec<u8>);

impl Encoded {
    pub closed spec fn view(&self) -> Seq<u8> {
        self.0@
    }

    pub open spec fn wf(&self) -> bool {
        self@.len() <= MAX_DATA_LENGTH
    }

    /// Refuses a size over the ceiling.
    pub fn check_size(size: usize) -> (r: Result<(), EncodeError>)
        ensures
            r == (if size > MAX_DATA_LENGTH { Err(EncodeError::TooLong(size)) } else { Ok::<(), EncodeError>(()) }),
    {
        if size > MAX_DATA_LENGTH {
            return Err(EncodeError::TooLong(size));
        }
        Ok(())
    }

    /// Takes `data` as an encoded message if it fits.
    pub fn buffer(data: Vec<u8>) -> (r: Result<Encoded, EncodeError>)
        ensures
            match r {
                Ok(e) => data@.len() <= MAX_DATA_LENGTH && e@ == data@ && e.wf(),
                Err(EncodeError::TooLong(n)) => data@.len() > MAX_DATA_LENGTH && n == data@.len(),
            },
    {
        match Encoded::check_size(data.len()) {
            Ok(()) => Ok(Encoded(data)),
            Err(e) => Err(e),
        }
    }

    pub fn into_inner(self) -> (r: Vec<u8>)
        ensures
            r@ == self@,
    {
        self.0
    }

    pub fn len(&self) -> (r: usize)
        ensures
            r == self@.len(),
    {
        self.0.len()
    }

    pub fn is_empty(&self) -> (r: bool)
        ensures
            r == (self@.len() == 0),
    {
        self.0.len() == 0
    }

    pub fn as_slice(&self) -> (r: &[u8])
        ensures
            r@ == self@,
    {
        self.0.as_slice()
    }
}

} // verus!
