//! The authentication policy consulted during the handshake.  A verifier
//! decides whether a peer is authenticated; failure here terminates the
//! connection before any application request is accepted.

use vstd::prelude::*;

use crate::connection::Backup;
use crate::keychain::{bytes_eq, Keychain};

verus! {

/// The policy deciding whether a peer is authenticated.
pub enum Verifier {
    /// Accept anything.
    NoneRequired,
    /// The peer must prove possession of exactly this key.
    StaticKey(Vec<u8>),
    /// The peer chooses from these advertised authentication methods and
    /// answers their challenges.
    Prompt(Vec<String>),
}

/// Why a handshake was rejected.
#[derive(Copy, Clone, Debug, PartialEq, Eq, Structural)]
pub enum AuthError {
    /// A static key was required and the presented key does not match.
    KeyMismatch,
    /// The peer chose an authentication method that was not advertised.
    UnknownMethod,
}

impl Verifier {
    /// A verifier that accepts anything.
    pub fn none() -> (v: Self)
        ensures
            v is NoneRequired,
    {
        Verifier::NoneRequired
    }

    /// A verifier requiring possession of `key`.
    pub fn static_key(key: Vec<u8>) -> (v: Self)
        ensures
            v matches Verifier::StaticKey(k) && k@ == key@,
    {
        Verifier::StaticKey(key)
    }

    /// A verifier advertising a choice of authentication methods.
    pub fn prompt(methods: Vec<String>) -> (v: Self)
        ensures
            v matches Verifier::Prompt(m) && m@ == methods@,
    {
        Verifier::Prompt(methods)
    }

    /// Whether a verifier advertises `method`: only a prompt verifier
    /// advertises methods, and exactly those in its list.
    pub open spec fn advertises(&self, method: Seq<char>) -> bool {
        &&& self is Prompt
        &&& exists|i: int|
            0 <= i < self->Prompt_0@.len() && self->Prompt_0@[i]@ == method
    }

    /// Whether `method` is among the advertised methods of a prompt
    /// verifier.  A verifier of any other kind advertises no methods.
    pub fn allows_method(&self, method: &String) -> (r: bool)
        ensures
            r == self.advertises(method@),
    {
        match self {
            Verifier::Prompt(methods) => {
                let mut i: usize = 0;
                while i < methods.len()
                    invariant
                        i <= methods@.len(),
                        self is Prompt,
                        self->Prompt_0@ == methods@,
                        forall|j: int| 0 <= j < i ==> methods@[j]@ != method@,
                    decreases methods@.len() - i,
                {
                    if methods[i].eq(method) {
                        proof {
                            let witness = i as int;
                            assert(0 <= witness < self->Prompt_0@.len()
                                && self->Prompt_0@[witness]@ == method@);
                        }
                        return true;
                    }
                    i = i + 1;
                }
                false
            }
            _ => false,
        }
    }

    /// Decides the handshake from the key material the peer presented.
    ///
    /// Accepts exactly when no authentication is required, or when the
    /// presented key matches the required static key; a prompt verifier
    /// accepts here exactly when the peer's chosen method was advertised
    /// (its per-method challenges are answered by the peer out of band).
    pub fn verify(&self, presented: &[u8], chosen_method: Option<&String>) -> (r: Result<
        (),
        AuthError,
    >)
        ensures
            match self {
                Verifier::NoneRequired => r is Ok,
                Verifier::StaticKey(k) => (r is Ok <==> presented@ == k@) && (r is Err ==> r
                    matches Err(AuthError::KeyMismatch)),
                Verifier::Prompt(_) => (r is Ok <==> (chosen_method matches Some(m)
                    && self.advertises(m@))) && (r is Err ==> r matches Err(
                    AuthError::UnknownMethod,
                )),
            },
    {
        match self {
            Verifier::NoneRequired => Ok(()),
            Verifier::StaticKey(k) => {
                if bytes_eq(presented, k.as_slice()) {
                    Ok(())
                } else {
                    Err(AuthError::KeyMismatch)
                }
            }
            Verifier::Prompt(_) => {
                match chosen_method {
                    Some(m) => {
                        if self.allows_method(m) {
                            Ok(())
                        } else {
                            Err(AuthError::UnknownMethod)
                        }
                    }
                    None => Err(AuthError::UnknownMethod),
                }
            }
        }
    }
}

/// The server side of the handshake: consults the verifier, and, for an
/// authenticated peer that presents a known connection key, recovers the
/// backup state its earlier connection left in the keychain.
///
/// Fails exactly when the verifier rejects the peer; the keychain is
/// consulted only after that, and its entry for the connection key is
/// consumed, so a second reconnect with the same key starts fresh.
pub fn server_handshake(
    verifier: &Verifier,
    presented: &[u8],
    chosen_method: Option<&String>,
    connection_key: &[u8],
    keychain: &mut Keychain<Backup>,
) -> (r: Result<Option<Backup>, AuthError>)
    requires
        old(keychain).wf(),
    ensures
        final(keychain).wf(),
        match verifier {
            Verifier::NoneRequired => r is Ok,
            Verifier::StaticKey(k) => (r is Ok <==> presented@ == k@),
            Verifier::Prompt(_) => (r is Ok <==> (chosen_method matches Some(m)
                && verifier.advertises(m@))),
        },
        r is Err ==> *final(keychain) == *old(keychain),
        r matches Ok(recovered) ==> match recovered {
            Some(backup) => {
                &&& old(keychain)@.dom().contains(connection_key@)
                &&& backup == old(keychain)@[connection_key@]
                &&& final(keychain)@ =~= old(keychain)@.remove(connection_key@)
            },
            None => !old(keychain)@.dom().contains(connection_key@) && *final(keychain)
                == *old(keychain),
        },
{
    if let Err(x) = verifier.verify(presented, chosen_method) {
        return Err(x);
    }
    Ok(keychain.take(connection_key))
}

} // verus!
