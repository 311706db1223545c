use vstd::prelude::*;

use crate::errors::Error;
use crate::text::{chars_of, i32_of, parse_i32};

verus! {

/// The command line of a shop's coffee machines: the orders file and the
/// shop they serve.
#[derive(Clone, Debug)]
pub struct InputController {
    pub filename: String,
    pub shop_id: i32,
}

impl InputController {
    /// Creates an [`InputController`].
    ///
    /// # Errors
    ///
    /// `NotFileInput` without a filename; then `NotShopIdInput` without a shop
    /// id, and `InvalidShopId` when the shop id is not a number.
    pub fn new(file_input: Option<String>, shop_id_input: Option<String>) -> (r: Result<
        InputController,
        Error,
    >)
        ensures
            file_input is None ==> r == Err::<InputController, Error>(Error::NotFileInput),
            file_input is Some && shop_id_input is None ==> r == Err::<InputController, Error>(
                Error::NotShopIdInput,
            ),
            file_input is Some && shop_id_input is Some && i32_of(shop_id_input->0@) is None
                ==> r == Err::<InputController, Error>(Error::InvalidShopId),
            file_input is Some && shop_id_input is Some && i32_of(shop_id_input->0@) is Some
                ==> r is Ok && r->Ok_0.filename == file_input->0 && r->Ok_0.shop_id == i32_of(
                shop_id_input->0@,
            )->0,
    {
        let file = match file_input {
            Some(file) => file,
            None => return Err(Error::NotFileInput),
        };
        let shop_id = match shop_id_input {
            Some(shop_id) => {
                let chars = chars_of(shop_id.as_str());
                match parse_i32(&chars) {
                    Some(shop_id) => shop_id,
                    None => return Err(Error::InvalidShopId),
                }
            },
            None => return Err(Error::NotShopIdInput),
        };
        Ok(InputController { filename: file, shop_id })
    }
}

} // verus!
