use vstd::prelude::*;

use crate::relay::fault::ParseError;
use crate::relay::messages::guid::Guid;
use crate::relay::messages::items;
use crate::utils;

verus! {

/// A chat line, for everyone when it names no receivers.
#[derive(Debug, PartialEq)]
pub struct Chat {
    pub sender_guid: Guid,
    pub message: String,
    pub receivers: Vec<Guid>,
}

/// What [`Chat`] says.
pub struct ChatView {
    pub sender_guid: Seq<char>,
    pub message: Seq<char>,
    pub receivers: Seq<Seq<char>>,
}

impl View for Chat {
    type V = ChatView;

    open spec fn view(&self) -> ChatView {
        ChatView {
            sender_guid: self.sender_guid@,
            message: self.message@,
            receivers: items::views(self.receivers@),
        }
    }
}

impl ChatView {
    /// The bytes on the wire.
    pub open spec fn bytes(self) -> Seq<u8> {
        utils::text_bytes(self.sender_guid) + utils::wide_bytes(self.message) + items::items_bytes::<Guid>(self.receivers)
    }

    /// Whether the wire can carry it: what reads back is what was written.
    pub open spec fn fits(self) -> bool {
        &&& utils::text_fits(self.sender_guid)
        &&& utils::wide_fits(self.message)
        &&& items::items_fit::<Guid>(self.receivers)
    }

    /// What a body holds; the list runs to its end.
    pub open spec fn parse(b: Seq<u8>) -> Result<ChatView, ParseError> {
        match utils::text_at(b, 0, "sender_guid length", "sender_guid data", "sender_guid") {
            Err(e) => Err(e),
            Ok((sender_guid, p1)) => match utils::wide_at(b, p1) {
                Err(e) => Err(e),
                Ok((message, p2)) => match items::items_at::<Guid>(b, p2) {
                    Err(e) => Err(e),
                    Ok(receivers) => Ok(ChatView { sender_guid, message, receivers }),
                },
            },
        }
    }

    /// A body reads back as it was written.
    pub proof fn round_trip(self)
        requires
            self.fits(),
        ensures
            Self::parse(self.bytes()) == Ok::<ChatView, ParseError>(self),
    {
        let b = self.bytes();
        let e0 = utils::text_bytes(self.sender_guid);
        let e1 = utils::wide_bytes(self.message);
        let e2 = items::items_bytes::<Guid>(self.receivers);
        let p0 = 0int;
        let p1 = p0 + e0.len();
        let p2 = p1 + e1.len();
        assert(utils::text_at(b, p0, "sender_guid length", "sender_guid data", "sender_guid") == Ok::<_, ParseError>((self.sender_guid, p0 + e0.len()))) by {
            assert(self.bytes() =~= Seq::<u8>::empty() + e0 + (e1 + e2));
            utils::lemma_occurs(Seq::<u8>::empty(), e0, e1 + e2);
            utils::lemma_text(b, p0, self.sender_guid, "sender_guid length", "sender_guid data", "sender_guid");
        }
        assert(utils::wide_at(b, p1) == Ok::<_, ParseError>((self.message, p1 + e1.len()))) by {
            assert(self.bytes() =~= e0 + e1 + e2);
            utils::lemma_occurs(e0, e1, e2);
            utils::lemma_wide(b, p1, self.message);
        }
        assert(items::items_at::<Guid>(b, p2) == Ok::<_, ParseError>(self.receivers)) by {
            assert(self.bytes() =~= e0 + e1 + e2 + Seq::<u8>::empty());
            utils::lemma_occurs(e0 + e1, e2, Seq::<u8>::empty());
            items::lemma_items::<Guid>(self.receivers, b, p2);
        }
    }
}

impl Clone for Chat {
    fn clone(&self) -> (r: Self)
        ensures
            r@ == self@,
    {
        Chat {
            sender_guid: self.sender_guid.clone(),
            message: self.message.clone(),
            receivers: items::copy_items(&self.receivers),
        }
    }
}

impl Chat {
    /// Appends the bytes on the wire.
    pub fn write(&self, out: &mut Vec<u8>)
        ensures
            final(out)@ == old(out)@ + self@.bytes(),
    {
        utils::put_text(out, self.sender_guid.0.as_str());
        utils::put_wide(out, self.message.as_str());
        items::write_items(&self.receivers, out);
        assert(out@ =~= old(out)@ + self@.bytes());
    }

    pub fn to_bytes(&self) -> (r: Vec<u8>)
        ensures
            r@ == self@.bytes(),
    {
        let mut bytes: Vec<u8> = Vec::new();
        self.write(&mut bytes);
        assert(bytes@ =~= self@.bytes());
        bytes
    }

    pub fn from_bytes(buffer: &[u8]) -> (r: Result<Self, ParseError>)
        ensures
            utils::viewed(r) == ChatView::parse(buffer@),
    {
        let (sender_guid, pos) = utils::get_text(buffer, 0, "sender_guid length", "sender_guid data", "sender_guid")?;
        let (message, pos) = utils::read_wide_string(buffer, pos)?;
        let receivers = items::read_items::<Guid>(buffer, pos)?;
        Ok(Chat { sender_guid: Guid(sender_guid), message, receivers })
    }
}

} // verus!
