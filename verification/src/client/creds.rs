//! Bearer tokens, one per relay, kept apart from the configuration.
//!
//! A token file named in the environment wins over a token in the environment,
//! which wins over what is stored.
use vstd::prelude::*;

use crate::table::Table;
use crate::text;

verus! {

/// The stored tokens by relay.
pub struct CredFile {
    pub tokens: Table<String, String>,
}

/// What the environment offers.
pub struct TokenEnv {
    /// The path of a token file, if one is named.
    pub file: Option<String>,
    /// The contents of that file, if it could be read.
    pub contents: Option<String>,
    /// A token.
    pub token: Option<String>,
}

/// The token that the environment gives, if it does.
pub open spec fn env_token(e: TokenEnv) -> Option<Seq<char>> {
    if e.file is Some && e.file->0@.len() > 0 && e.contents is Some && text::trimmed(
        e.contents->0@,
    ).len() > 0 {
        Some(text::trimmed(e.contents->0@))
    } else if e.token is Some && e.token->0@.len() > 0 {
        Some(e.token->0@)
    } else {
        None
    }
}

impl CredFile {
    pub open spec fn wf(&self) -> bool {
        self.tokens.wf()
    }

    /// No tokens.
    pub fn new() -> (r: Self)
        ensures
            r.wf(),
            r.tokens@ == Map::<Seq<char>, String>::empty(),
    {
        CredFile { tokens: Table::new() }
    }

    /// Store or replace the token of a relay.
    pub fn store(&mut self, relay: &str, token: &str)
        requires
            old(self).wf(),
        ensures
            final(self).wf(),
            final(self).tokens@.dom() == old(self).tokens@.dom().insert(relay@),
            final(self).tokens@[relay@]@ == token@,
            forall|k: Seq<char>|
                k != relay@ && old(self).tokens@.dom().contains(k)
                    ==> #[trigger] final(self).tokens@[k] == old(self).tokens@[k],
    {
        let _ = self.tokens.insert(relay.to_owned(), token.to_owned());
    }

    /// The token for a relay: the environment's if it gives one, else the one
    /// that is stored.
    pub fn resolve(&self, relay: &str, env: &TokenEnv) -> (r: Option<String>)
        requires
            self.wf(),
        ensures
            match env_token(*env) {
                Some(t) => r is Some && r->0@ == t,
                None => if self.tokens@.dom().contains(relay@) {
                    r is Some && r->0@ == self.tokens@[relay@]@
                } else {
                    r is None
                },
            },
    {
        match &env.file {
            Some(p) => {
                if !p.as_str().is_empty() {
                    match &env.contents {
                        Some(c) => {
                            let t = text::trim(c.as_str());
                            if !t.as_str().is_empty() {
                                return Some(t);
                            }
                        },
                        None => {},
                    }
                }
            },
            None => {},
        }
        match &env.token {
            Some(t) => {
                if !t.as_str().is_empty() {
                    return Some(t.clone());
                }
            },
            None => {},
        }
        match self.tokens.get(&relay.to_owned()) {
            Some(t) => Some(t.clone()),
            None => None,
        }
    }
}

/// A token file that holds a token wins over a token in the environment, and an
/// empty value is none.
pub proof fn token_file_wins(e: TokenEnv)
    ensures
        e.file is Some && e.file->0@.len() > 0 && e.contents is Some && text::trimmed(
            e.contents->0@,
        ).len() > 0 ==> env_token(e) == Some(text::trimmed(e.contents->0@)),
        e.file is None || e.file->0@.len() == 0 || e.contents is None || text::trimmed(
            e.contents->0@,
        ).len() == 0 ==> env_token(e) == (match e.token {
            Some(t) => if t@.len() > 0 {
                Some(t@)
            } else {
                None
            },
            None => None,
        }),
        env_token(e) matches Some(t) ==> t.len() > 0,
{
}

} // verus!
