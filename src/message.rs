use vstd::prelude::*;

verus! {

/// What an event passed between the window and the engine is about.
#[derive(Clone, Copy, Debug, PartialEq, Eq, Structural)]
pub enum MessageId {
    DroppedFile,
    CursorMoved,
    MouseWheel,
    Translate,
    Escape,
    Resized,
    RedrawRequested,
}

/// An event tagged with its kind and carrying its data.
pub struct Message<T> {
    pub message_id: MessageId,
    pub data: T,
}

impl<T> Message<T> {
    pub fn new(message_id: MessageId, data: T) -> (r: Message<T>)
        ensures
            r.message_id == message_id,
            r.data == data,
    {
        Message { message_id, data }
    }
}

} // verus!
