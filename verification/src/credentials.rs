//! Credentials that are given as one text.

use vstd::prelude::*;

use crate::text::{
    lemma_until, split_first, take_until, text_of, until, until_ends_at_the_first_stop,
};

verus! {

/// The name under which credentials from an authorization token are presented.
pub const PROVIDER_NAME: &'static str = "self_update-provided";

/// A key pair.
#[derive(Debug)]
pub struct Credentials {
    pub access_key: String,
    pub secret_key: String,
}

/// What a [`Credentials`] holds.
pub struct CredentialsView {
    pub access_key: Seq<char>,
    pub secret_key: Seq<char>,
}

impl View for Credentials {
    type V = CredentialsView;

    open spec fn view(&self) -> CredentialsView {
        CredentialsView { access_key: self.access_key@, secret_key: self.secret_key@ }
    }
}

/// The key pair that a token writes: what stands before the first colon, and what
/// stands between it and the second, or the end. A token without a colon writes none.
pub open spec fn token_credentials(token: Seq<char>) -> Option<CredentialsView> {
    if token.contains(':') {
        let access_key = until(token, ':');
        Some(
            CredentialsView {
                access_key,
                secret_key: until(token.skip((access_key.len() + 1) as int), ':'),
            },
        )
    } else {
        None
    }
}

/// The key pair of a token, where there is a token and it writes one.
pub open spec fn auth_credentials(auth_token: Option<Seq<char>>) -> Option<CredentialsView> {
    match auth_token {
        Some(token) => token_credentials(token),
        None => None,
    }
}

/// The explicit credentials of an authorization token in the format
/// "ACCESS_KEY:SECRET_KEY".
pub fn parse_credentials(auth_token: &Option<String>) -> (credentials: Option<Credentials>)
    ensures
        credentials is Some <==> auth_credentials(text_of(*auth_token)) is Some,
        credentials matches Some(pair) ==> Some(pair@) == auth_credentials(text_of(*auth_token)),
        credentials is Some <==> (auth_token matches Some(token) && token@.contains(':')),
        credentials matches Some(pair) ==> {
            let written = pair.access_key@ + ":"@ + pair.secret_key@;
            let token = auth_token->0@;
            &&& !pair.access_key@.contains(':')
            &&& !pair.secret_key@.contains(':')
            &&& written.len() <= token.len() && token.take(written.len() as int) == written
            &&& written.len() < token.len() ==> token[written.len() as int] == ':'
        },
{
    match auth_token {
        Some(token) => match split_first(token.as_str(), ':') {
            Some((access_key, behind)) => {
                proof {
                    reveal_strlit(":");
                    until_ends_at_the_first_stop(behind@, ':');
                    let secret_key = until(behind@, ':');
                    let written = access_key@ + ":"@ + secret_key;
                    assert(seq![':'] =~= ":"@);
                    assert(token@.take(written.len() as int) =~= written);
                    if written.len() < token@.len() {
                        assert(token@[written.len() as int] == behind@[secret_key.len() as int]);
                    }
                }
                Some(Credentials {
                    access_key: access_key.to_owned(),
                    secret_key: take_until(behind, ':').to_owned(),
                })
            },
            None => None,
        },
        None => None,
    }
}

/// A token in the format "ACCESS_KEY:SECRET_KEY" writes the two keys, where no colon
/// stands in them.
pub proof fn token_writes_its_keys(access_key: Seq<char>, secret_key: Seq<char>)
    requires
        !access_key.contains(':'),
        !secret_key.contains(':'),
    ensures
        token_credentials(access_key + ":"@ + secret_key) == Some(
            CredentialsView { access_key, secret_key },
        ),
{
    reveal_strlit(":");
    let token = access_key + ":"@ + secret_key;
    let at = access_key.len() as int;
    assert(token[at] == ":"@[0]);
    assert forall|k: int| 0 <= k < at implies token[k] != ':' by {
        assert(access_key.contains(access_key[k]));
    }
    lemma_until(token, ':', at);
    assert(token.take(at) =~= access_key);
    assert(token.skip(at + 1) =~= secret_key);
    assert forall|k: int| 0 <= k < secret_key.len() implies secret_key[k] != ':' by {
        assert(secret_key.contains(secret_key[k]));
    }
    lemma_until(secret_key, ':', secret_key.len() as int);
    assert(secret_key.take(secret_key.len() as int) =~= secret_key);
}

/// The credentials of a token are the two keys that are joined in it by a colon, whatever
/// else they hold. What a second colon parts from the secret key is no part of it.
pub proof fn token_gives_its_keys(
    access_key: Seq<char>,
    secret_key: Seq<char>,
    more: Seq<char>,
)
    requires
        !access_key.contains(':'),
        !secret_key.contains(':'),
    ensures
        auth_credentials(Some(access_key + ":"@ + secret_key)) == Some(
            CredentialsView { access_key, secret_key },
        ),
        auth_credentials(Some(access_key + ":"@ + secret_key + ":"@ + more)) == Some(
            CredentialsView { access_key, secret_key },
        ),
{
    reveal_strlit(":");
    token_writes_its_keys(access_key, secret_key);
    let token = access_key + ":"@ + secret_key + ":"@ + more;
    let short = access_key + ":"@ + secret_key;
    assert(short[access_key.len() as int] == ':');
    assert(short.contains(':'));
    let at = access_key.len() as int;
    assert(token[at] == ":"@[0]);
    assert(token.contains(':'));
    assert forall|k: int| 0 <= k < at implies token[k] != ':' by {
        assert(access_key.contains(access_key[k]));
    }
    lemma_until(token, ':', at);
    assert(token.take(at) =~= access_key);
    let behind = token.skip(at + 1);
    assert(behind =~= secret_key + ":"@ + more);
    assert forall|k: int| 0 <= k < secret_key.len() implies behind[k] != ':' by {
        assert(secret_key.contains(secret_key[k]));
    }
    assert(behind[secret_key.len() as int] == ":"@[0]);
    lemma_until(behind, ':', secret_key.len() as int);
    assert(behind.take(secret_key.len() as int) =~= secret_key);
}

/// Without a colon, and without a token, there are no explicit credentials.
pub proof fn no_colon_gives_no_keys(token: Seq<char>)
    requires
        !token.contains(':'),
    ensures
        auth_credentials(Some(token)) is None,
        auth_credentials(None) is None,
{
}

/// What a pair of keys shows are the two keys.
pub proof fn credentials_show_their_keys(pair: Credentials)
    ensures
        pair@.access_key == pair.access_key@,
        pair@.secret_key == pair.secret_key@,
{
}

} // verus!
