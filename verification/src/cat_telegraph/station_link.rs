use vstd::prelude::*;

use crate::cat_telegraph::dispatcher_types::PurrKey;

verus! {

/// A slot of the dispatcher's fixed route table: the reply handle of a route
/// and its key. A slot without a handle is free.
#[derive(Debug)]
pub struct KeySenderReply<C: PurrKey, R> {
    pub sender: Option<R>,
    pub key: C,
}

impl<C: PurrKey, R> KeySenderReply<C, R> {
    /// A free slot with the key type's default key.
    pub fn new() -> (r: Self)
        ensures r.sender is None,
    {
        KeySenderReply { sender: None, key: C::default() }
    }

    pub fn set_sender(&mut self, sender: R)
        ensures
            final(self).sender == Some(sender),
            final(self).key == old(self).key,
    {
        self.sender = Some(sender);
    }

    pub fn set_key(&mut self, key: C)
        ensures
            final(self).key == key,
            final(self).sender == old(self).sender,
    {
        self.key = key;
    }
}

impl<C: PurrKey, R> Default for KeySenderReply<C, R> {
    fn default() -> (r: Self)
        ensures r.sender is None,
    {
        Self::new()
    }
}

} // verus!
