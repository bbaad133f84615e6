//! Resolution of the config directory from the home-directory lookup.

use vstd::prelude::*;
use vstd::string::StrSliceExecFns;
use vstd::string::StringExecFns;

verus! {

/// Why the home-directory lookup in the process environment failed: the
/// variable was not set, or its value was not valid text.
#[derive(Clone, Copy, Debug, PartialEq, Eq, Structural)]
pub enum LookupError {
    NotPresent,
    NotUnicode,
}

/// The fixed child segment appended to the home path: `.config`.
pub open spec fn config_segment() -> Seq<char> {
    seq!['.', 'c', 'o', 'n', 'f', 'i', 'g']
}

/// The config path derived from a home path: the home path with the `.config`
/// segment appended, inserting a separator exactly when the home path is
/// nonempty and does not already end in one.
pub open spec fn config_path(home: Seq<char>) -> Seq<char> {
    if home.len() == 0 {
        config_segment()
    } else if home.last() == '/' {
        home + config_segment()
    } else {
        home + seq!['/'] + config_segment()
    }
}

/// Derives the config directory from the outcome of the home-directory
/// lookup: on success the home path with the `.config` segment appended, and
/// on failure the same error, unchanged. The resulting path is not probed for
/// existence. The caller reads the environment variable that holds the home
/// directory and hands its outcome in.
pub fn get_config(home: Result<String, LookupError>) -> (config: Result<String, LookupError>)
    ensures
        match home {
            Ok(h) => config matches Ok(c) && c@ == config_path(h@),
            Err(e) => config == Err::<String, LookupError>(e),
        },
{
    proof {
        reveal_strlit(".config");
        reveal_strlit("/.config");
    }
    match home {
        Err(e) => Err(e),
        Ok(mut path) => {
            let ghost h0 = path@;
            let len = path.as_str().unicode_len();
            if len == 0 {
                path.append(".config");
                proof {
                    assert(path@ =~= config_path(h0));
                }
                Ok(path)
            } else if path.as_str().get_char(len - 1) == '/' {
                path.append(".config");
                proof {
                    assert(path@ =~= config_path(h0));
                }
                Ok(path)
            } else {
                path.append("/.config");
                proof {
                    assert(path@ =~= config_path(h0));
                }
                Ok(path)
            }
        },
    }
}

} // verus!
