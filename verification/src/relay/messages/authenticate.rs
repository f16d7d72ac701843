use vstd::prelude::*;

use crate::relay::fault::ParseError;
use crate::utils;

verus! {

/// A client asking to be admitted under a name.
#[derive(Debug, PartialEq)]
pub struct Authenticate {
    pub name: String,
    pub password: String,
    pub controller_secret: String,
}

/// What [`Authenticate`] says.
pub struct AuthenticateView {
    pub name: Seq<char>,
    pub password: Seq<char>,
    pub controller_secret: Seq<char>,
}

impl View for Authenticate {
    type V = AuthenticateView;

    open spec fn view(&self) -> AuthenticateView {
        AuthenticateView {
            name: self.name@,
            password: self.password@,
            controller_secret: self.controller_secret@,
        }
    }
}

impl AuthenticateView {
    /// The bytes on the wire.
    pub open spec fn bytes(self) -> Seq<u8> {
        utils::wide_bytes(self.name) + utils::text_bytes(self.password) + utils::text_bytes(self.controller_secret)
    }

    /// Whether the wire can carry it: what reads back is what was written.
    pub open spec fn fits(self) -> bool {
        &&& utils::wide_fits(self.name)
        &&& utils::text_fits(self.password)
        &&& utils::text_fits(self.controller_secret)
    }

    /// What a body holds; bytes past the last field are ignored.
    pub open spec fn parse(b: Seq<u8>) -> Result<AuthenticateView, ParseError> {
        match utils::wide_at(b, 0) {
            Err(e) => Err(e),
            Ok((name, p1)) => match utils::text_at(b, p1, "password length", "password data", "password") {
                Err(e) => Err(e),
                Ok((password, p2)) => match utils::text_at(b, p2, "controller_secret length", "controller_secret data", "controller_secret") {
                    Err(e) => Err(e),
                    Ok((controller_secret, _)) => Ok(AuthenticateView { name, password, controller_secret }),
                },
            },
        }
    }

    /// A body reads back as it was written.
    pub proof fn round_trip(self)
        requires
            self.fits(),
        ensures
            Self::parse(self.bytes()) == Ok::<AuthenticateView, ParseError>(self),
    {
        let b = self.bytes();
        let e0 = utils::wide_bytes(self.name);
        let e1 = utils::text_bytes(self.password);
        let e2 = utils::text_bytes(self.controller_secret);
        let p0 = 0int;
        let p1 = p0 + e0.len();
        let p2 = p1 + e1.len();
        assert(utils::wide_at(b, p0) == Ok::<_, ParseError>((self.name, p0 + e0.len()))) by {
            assert(self.bytes() =~= Seq::<u8>::empty() + e0 + (e1 + e2));
            utils::lemma_occurs(Seq::<u8>::empty(), e0, e1 + e2);
            utils::lemma_wide(b, p0, self.name);
        }
        assert(utils::text_at(b, p1, "password length", "password data", "password") == Ok::<_, ParseError>((self.password, p1 + e1.len()))) by {
            assert(self.bytes() =~= e0 + e1 + e2);
            utils::lemma_occurs(e0, e1, e2);
            utils::lemma_text(b, p1, self.password, "password length", "password data", "password");
        }
        assert(utils::text_at(b, p2, "controller_secret length", "controller_secret data", "controller_secret") == Ok::<_, ParseError>((self.controller_secret, p2 + e2.len()))) by {
            assert(self.bytes() =~= e0 + e1 + e2 + Seq::<u8>::empty());
            utils::lemma_occurs(e0 + e1, e2, Seq::<u8>::empty());
            utils::lemma_text(b, p2, self.controller_secret, "controller_secret length", "controller_secret data", "controller_secret");
        }
    }
}

impl Clone for Authenticate {
    fn clone(&self) -> (r: Self)
        ensures
            r@ == self@,
    {
        Authenticate {
            name: self.name.clone(),
            password: self.password.clone(),
            controller_secret: self.controller_secret.clone(),
        }
    }
}

impl Authenticate {
    /// Appends the bytes on the wire.
    pub fn write(&self, out: &mut Vec<u8>)
        ensures
            final(out)@ == old(out)@ + self@.bytes(),
    {
        utils::put_wide(out, self.name.as_str());
        utils::put_text(out, self.password.as_str());
        utils::put_text(out, self.controller_secret.as_str());
        assert(out@ =~= old(out)@ + self@.bytes());
    }

    pub fn to_bytes(&self) -> (r: Vec<u8>)
        ensures
            r@ == self@.bytes(),
    {
        let mut bytes: Vec<u8> = Vec::new();
        self.write(&mut bytes);
        assert(bytes@ =~= self@.bytes());
        bytes
    }

    pub fn from_bytes(buffer: &[u8]) -> (r: Result<Self, ParseError>)
        ensures
            utils::viewed(r) == AuthenticateView::parse(buffer@),
    {
        let (name, pos) = utils::read_wide_string(buffer, 0)?;
        let (password, pos) = utils::get_text(buffer, pos, "password length", "password data", "password")?;
        let (controller_secret, _) = utils::get_text(buffer, pos, "controller_secret length", "controller_secret data", "controller_secret")?;
        Ok(Authenticate { name, password, controller_secret })
    }
}

} // verus!
