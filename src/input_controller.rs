use vstd::prelude::*;

use crate::errors::Error;

verus! {

/// The command line of the single-machine program: the name of the orders file.
#[derive(Clone, Debug)]
pub struct InputController {
    pub filename: String,
}

impl InputController {
    /// Creates an [`InputController`].
    ///
    /// # Errors
    ///
    /// This function will return an error if the user does not enter a filename.
    pub fn new(input: Option<String>) -> (r: Result<InputController, Error>)
        ensures
            match input {
                Some(f) => r is Ok && r->Ok_0.filename == f,
                None => r == Err::<InputController, Error>(Error::NotFileInput),
            },
    {
        let file = match input {
            Some(file) => file,
            None => return Err(Error::NotFileInput),
        };
        Ok(InputController { filename: file })
    }
}

} // verus!
