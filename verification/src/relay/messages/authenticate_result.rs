use vstd::prelude::*;

use crate::relay::fault::ParseError;
use crate::relay::messages::authenticate_result_code::AuthenticateResultCode;
use crate::utils;

verus! {

/// How the relay answers [`Authenticate`](super::Authenticate).
#[derive(Debug, PartialEq)]
pub struct AuthenticateResult {
    pub code: AuthenticateResultCode,
    pub host_id: u16,
    pub is_controller: bool,
    pub message: String,
}

/// What [`AuthenticateResult`] says.
pub struct AuthenticateResultView {
    pub code: AuthenticateResultCode,
    pub host_id: u16,
    pub is_controller: bool,
    pub message: Seq<char>,
}

impl View for AuthenticateResult {
    type V = AuthenticateResultView;

    open spec fn view(&self) -> AuthenticateResultView {
        AuthenticateResultView {
            code: self.code,
            host_id: self.host_id,
            is_controller: self.is_controller,
            message: self.message@,
        }
    }
}

impl AuthenticateResultView {
    /// The bytes on the wire.
    pub open spec fn bytes(self) -> Seq<u8> {
        utils::be32_bytes(self.code.number()) + utils::be16_bytes(self.host_id) + seq![utils::flag_byte(self.is_controller)] + utils::wide_bytes(self.message)
    }

    /// Whether the wire can carry it: what reads back is what was written.
    pub open spec fn fits(self) -> bool {
        utils::wide_fits(self.message)
    }

    /// What a body holds; bytes past the last field are ignored.
    pub open spec fn parse(b: Seq<u8>) -> Result<AuthenticateResultView, ParseError> {
        match utils::u32_at(b, 0, "code") {
            Err(e) => Err(e),
            Ok((code, p1)) => match utils::u16_at(b, p1, "host_id") {
                Err(e) => Err(e),
                Ok((host_id, p2)) => match utils::u8_at(b, p2, "is_controller") {
                    Err(e) => Err(e),
                    Ok((is_controller, p3)) => match utils::wide_at(b, p3) {
                        Err(e) => Err(e),
                        Ok((message, _)) => Ok(AuthenticateResultView { code: AuthenticateResultCode::of(code), host_id, is_controller: is_controller != 0, message }),
                    },
                },
            },
        }
    }

    /// A body reads back as it was written.
    pub proof fn round_trip(self)
        requires
            self.fits(),
        ensures
            Self::parse(self.bytes()) == Ok::<AuthenticateResultView, ParseError>(self),
    {
        let b = self.bytes();
        let e0 = utils::be32_bytes(self.code.number());
        let e1 = utils::be16_bytes(self.host_id);
        let e2 = seq![utils::flag_byte(self.is_controller)];
        let e3 = utils::wide_bytes(self.message);
        let p0 = 0int;
        let p1 = p0 + e0.len();
        let p2 = p1 + e1.len();
        let p3 = p2 + e2.len();
        assert(utils::u32_at(b, p0, "code") == Ok::<_, ParseError>((self.code.number(), p0 + e0.len()))) by {
            assert(self.bytes() =~= Seq::<u8>::empty() + e0 + (e1 + e2 + e3));
            utils::lemma_occurs(Seq::<u8>::empty(), e0, e1 + e2 + e3);
            utils::lemma_be32(b, p0, self.code.number());
        }
        assert(utils::u16_at(b, p1, "host_id") == Ok::<_, ParseError>((self.host_id, p1 + e1.len()))) by {
            assert(self.bytes() =~= e0 + e1 + (e2 + e3));
            utils::lemma_occurs(e0, e1, e2 + e3);
            utils::lemma_be16(b, p1, self.host_id);
        }
        assert(utils::u8_at(b, p2, "is_controller") == Ok::<_, ParseError>((utils::flag_byte(self.is_controller), p2 + e2.len()))) by {
            assert(self.bytes() =~= e0 + e1 + e2 + e3);
            utils::lemma_occurs(e0 + e1, e2, e3);
            assert(b.subrange(p2, p2 + 1)[0] == utils::flag_byte(self.is_controller));
        }
        assert(utils::wide_at(b, p3) == Ok::<_, ParseError>((self.message, p3 + e3.len()))) by {
            assert(self.bytes() =~= e0 + e1 + e2 + e3 + Seq::<u8>::empty());
            utils::lemma_occurs(e0 + e1 + e2, e3, Seq::<u8>::empty());
            utils::lemma_wide(b, p3, self.message);
        }
    }
}

impl Clone for AuthenticateResult {
    fn clone(&self) -> (r: Self)
        ensures
            r@ == self@,
    {
        AuthenticateResult {
            code: self.code,
            host_id: self.host_id,
            is_controller: self.is_controller,
            message: self.message.clone(),
        }
    }
}

impl AuthenticateResult {
    /// Appends the bytes on the wire.
    pub fn write(&self, out: &mut Vec<u8>)
        ensures
            final(out)@ == old(out)@ + self@.bytes(),
    {
        utils::put_be32(out, self.code.to_number());
        utils::put_be16(out, self.host_id);
        utils::put_u8(out, utils::flag_to_byte(self.is_controller));
        utils::put_wide(out, self.message.as_str());
        assert(out@ =~= old(out)@ + self@.bytes());
    }

    pub fn to_bytes(&self) -> (r: Vec<u8>)
        ensures
            r@ == self@.bytes(),
    {
        let mut bytes: Vec<u8> = Vec::new();
        self.write(&mut bytes);
        assert(bytes@ =~= self@.bytes());
        bytes
    }

    pub fn from_bytes(buffer: &[u8]) -> (r: Result<Self, ParseError>)
        ensures
            utils::viewed(r) == AuthenticateResultView::parse(buffer@),
    {
        let (code, pos) = utils::get_u32(buffer, 0, "code")?;
        let (host_id, pos) = utils::get_u16(buffer, pos, "host_id")?;
        let (is_controller, pos) = utils::get_u8(buffer, pos, "is_controller")?;
        let (message, _) = utils::read_wide_string(buffer, pos)?;
        Ok(AuthenticateResult { code: AuthenticateResultCode::from_number(code), host_id, is_controller: is_controller != 0, message })
    }
}

} // verus!
