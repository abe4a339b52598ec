use vstd::prelude::*;
use vstd::string::StringExecFns;

use crate::channel::Notifications;

verus! {

/// Turns a failed step into a reported one: the description goes to the
/// notification channel and the caller gets an opaque status.
pub trait UiRecovery<T>: Sized {
    /// The value the step produced, if it succeeded.
    spec fn recovered(&self) -> Option<T>;

    fn expect_throw(self, send_to: &mut Notifications, message: &str) -> (r: Result<T, u8>)
        ensures
            match self.recovered() {
                Some(v) => r == Ok::<T, u8>(v) && final(send_to)@ == old(send_to)@,
                None => r == Err::<T, u8>(0u8) && final(send_to)@ == old(send_to)@.push(message@),
            },
    ;
}

impl<T, E> UiRecovery<T> for Result<T, E> {
    open spec fn recovered(&self) -> Option<T> {
        match self {
            Ok(v) => Some(*v),
            Err(_) => None,
        }
    }

    fn expect_throw(self, send_to: &mut Notifications, message: &str) -> (r: Result<T, u8>) {
        match self {
            Ok(v) => Ok(v),
            Err(_) => {
                send_to.enqueue(String::from_str(message));
                Err(0)
            },
        }
    }
}

impl<T> UiRecovery<T> for Option<T> {
    open spec fn recovered(&self) -> Option<T> {
        *self
    }

    fn expect_throw(self, send_to: &mut Notifications, message: &str) -> (r: Result<T, u8>) {
        match self {
            Some(v) => Ok(v),
            None => {
                send_to.enqueue(String::from_str(message));
                Err(0)
            },
        }
    }
}

} // verus!
