//! Names of the client's files.
use vstd::prelude::*;

use crate::order;
use crate::text;

verus! {

/// The configuration, which holds no secrets.
pub const CONFIG_FILE: &'static str = "config.toml";

/// The bearer tokens.
pub const CREDENTIALS_FILE: &'static str = "credentials.toml";

/// The snapshot of the running daemon.
pub const STATUS_FILE: &'static str = "status.json";

/// Where log files go.
pub const LOG_DIR: &'static str = "logs";

/// The directory that holds the client's files: the one that overrides it where
/// it is set, or else the user's own.
pub fn config_dir<P>(over: Option<P>, user: Option<P>) -> (r: Result<P, String>)
    ensures
        match (over, user) {
            (Some(dir), _) => r == Ok::<P, String>(dir),
            (None, Some(dir)) => r == Ok::<P, String>(dir),
            (None, None) => r is Err && r->Err_0@
                == "cannot determine a config directory for this platform"@,
        },
{
    match over {
        Some(dir) => Ok(dir),
        None => match user {
            Some(dir) => Ok(dir),
            None => Err("cannot determine a config directory for this platform".to_owned()),
        },
    }
}

/// The stem of log files; each day's file adds its date.
pub fn log_file_basename() -> (r: &'static str)
    ensures
        r@ == "etun.log"@,
{
    "etun.log"
}

/// A log file's name.
pub open spec fn log_name(n: Seq<char>) -> bool {
    "etun.log"@.is_prefix_of(n)
}

/// The newest log file among the names in the log directory: dates sort as
/// text.
pub fn latest_log(names: &Vec<String>) -> (r: Option<usize>)
    ensures
        match r {
            Some(i) => {
                &&& i < names@.len()
                &&& log_name(names@[i as int]@)
                &&& forall|j: int|
                    0 <= j < names@.len() && log_name(#[trigger] names@[j]@) ==> order::lex_le(
                        names@[j]@,
                        names@[i as int]@,
                    )
            },
            None => forall|j: int| 0 <= j < names@.len() ==> !log_name(#[trigger] names@[j]@),
        },
{
    let mut best: Option<usize> = None;
    let mut i: usize = 0;
    while i < names.len()
        invariant
            i <= names@.len(),
            match best {
                Some(b) => {
                    &&& b < i
                    &&& log_name(names@[b as int]@)
                    &&& forall|j: int|
                        0 <= j < i && log_name(#[trigger] names@[j]@) ==> order::lex_le(
                            names@[j]@,
                            names@[b as int]@,
                        )
                },
                None => forall|j: int| 0 <= j < i ==> !log_name(#[trigger] names@[j]@),
            },
        decreases names@.len() - i,
    {
        if text::starts_with(names[i].as_str(), "etun.log") {
            let ghost here = i as int;
            match best {
                Some(b) => {
                    if order::str_le(names[b].as_str(), names[i].as_str()) {
                        proof {
                            assert forall|j: int|
                                0 <= j < i + 1 && log_name(
                                    #[trigger] names@[j]@,
                                ) implies order::lex_le(names@[j]@, names@[here]@) by {
                                if j < here {
                                    order::lemma_lex_trans(
                                        names@[j]@,
                                        names@[b as int]@,
                                        names@[here]@,
                                    );
                                } else {
                                    order::lemma_lex_total(names@[here]@, names@[here]@);
                                }
                            }
                        }
                        best = Some(i);
                    } else {
                        proof {
                            order::lemma_lex_total(names@[b as int]@, names@[here]@);
                        }
                    }
                },
                None => {
                    proof {
                        order::lemma_lex_total(names@[here]@, names@[here]@);
                    }
                    best = Some(i);
                },
            }
        }
        i += 1;
    }
    best
}

} // verus!
