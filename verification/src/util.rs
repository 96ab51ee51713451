//! How results cross into the embedding program, which has its own type for
//! "an error or a value".
use crate::value::{AffResult, AffValue};
use vstd::prelude::*;

verus! {

/// A call of a function of the embedding program.
pub struct AffCall<H> {
    pub function: AffValue<H>,
    pub argument: AffValue<H>,
}

/// The functions that make and take apart a value of that type.
pub struct AffUtil<H> {
    pub is_left: AffValue<H>,
    pub from_left: AffValue<H>,
    pub from_right: AffValue<H>,
    pub left: AffValue<H>,
    pub right: AffValue<H>,
}

impl<H> Clone for AffUtil<H> {
    fn clone(&self) -> (util: AffUtil<H>)
        ensures
            util == *self,
    {
        AffUtil {
            is_left: self.is_left.clone(),
            from_left: self.from_left.clone(),
            from_right: self.from_right.clone(),
            left: self.left.clone(),
            right: self.right.clone(),
        }
    }
}

impl<H> AffUtil<H> {
    pub fn new(
        is_left: AffValue<H>,
        from_left: AffValue<H>,
        from_right: AffValue<H>,
        left: AffValue<H>,
        right: AffValue<H>,
    ) -> (util: AffUtil<H>)
        ensures
            util == (AffUtil { is_left, from_left, from_right, left, right }),
    {
        AffUtil { is_left, from_left, from_right, left, right }
    }

    pub open spec fn encoding(self, result: AffResult<H>) -> AffCall<H> {
        match result {
            Ok(value) => AffCall { function: self.right, argument: value },
            Err(error) => AffCall { function: self.left, argument: error },
        }
    }

    /// The call that makes a foreign value of a result.
    pub fn encode(&self, result: AffResult<H>) -> (call: AffCall<H>)
        ensures
            call == self.encoding(result),
    {
        match result {
            Ok(value) => AffCall { function: self.right.clone(), argument: value },
            Err(error) => AffCall { function: self.left.clone(), argument: error },
        }
    }

    /// The call that tells whether a foreign value holds an error.
    pub fn probe(&self, value: AffValue<H>) -> (call: AffCall<H>)
        ensures
            call == (AffCall { function: self.is_left, argument: value }),
    {
        AffCall { function: self.is_left.clone(), argument: value }
    }

    /// The call that takes a foreign value apart. With `Err` its outcome is an
    /// error, with `Ok` it is a value.
    pub fn decode(&self, value: AffValue<H>, is_left: bool) -> (call: Result<
        AffCall<H>,
        AffCall<H>,
    >)
        ensures
            call == if is_left {
                Err::<AffCall<H>, AffCall<H>>(
                    AffCall { function: self.from_left, argument: value },
                )
            } else {
                Ok::<AffCall<H>, AffCall<H>>(
                    AffCall { function: self.from_right, argument: value },
                )
            },
    {
        if is_left {
            Err(AffCall { function: self.from_left.clone(), argument: value })
        } else {
            Ok(AffCall { function: self.from_right.clone(), argument: value })
        }
    }
}

} // verus!
