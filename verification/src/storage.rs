use vstd::prelude::*;

use crate::chars::{append_chars, chars_of, chars_to_string};
use crate::error::VexError;

verus! {

/// The path of the record of `name` under the root `dir`.
pub open spec fn config_file_spec(dir: Seq<char>, name: Seq<char>) -> Seq<char> {
    dir + seq!['/'] + name + ".json"@
}

/// The path of the record of `name` under the root `dir`: the name
/// with the record extension, under the root.
pub fn config_file(dir: &str, name: &str) -> (p: String)
    ensures
        p@ == config_file_spec(dir@, name@),
{
    let mut out = chars_of(dir);
    out.push('/');
    append_chars(&mut out, name);
    append_chars(&mut out, ".json");
    proof {
        assert(out@ =~= config_file_spec(dir@, name@));
    }
    chars_to_string(&out)
}

/// The root under the home directory, when there is one.
pub open spec fn home_root_spec(home: Option<Seq<char>>) -> Option<Seq<char>> {
    match home {
        Some(h) => Some(h + "/.vex/configs"@),
        None => None,
    }
}

/// Where the configuration root lies: a non-empty override wins;
/// otherwise the fixed subdirectory of the home directory; with
/// neither, nowhere.
pub open spec fn config_root_spec(
    override_dir: Option<Seq<char>>,
    home: Option<Seq<char>>,
) -> Option<Seq<char>> {
    match override_dir {
        Some(o) => if o.len() > 0 {
            Some(o)
        } else {
            home_root_spec(home)
        },
        None => home_root_spec(home),
    }
}

/// Resolves the configuration root from the override variable's
/// value and the home directory, as `config_root_spec` says;
/// `StorageUnavailable` exactly when neither is at hand.
pub fn resolve_config_root(override_dir: Option<String>, home: Option<String>) -> (r: Result<
    String,
    VexError,
>)
    ensures
        match r {
            Ok(p) => config_root_spec(override_dir.deep_view(), home.deep_view()) == Some(p@),
            Err(e) => config_root_spec(override_dir.deep_view(), home.deep_view()) is None
                && e is StorageUnavailable,
        },
{
    match override_dir {
        Some(o) => {
            if !o.as_str().is_empty() {
                return Ok(o);
            }
        },
        None => {},
    }
    match home {
        Some(h) => {
            let mut out = chars_of(h.as_str());
            append_chars(&mut out, "/.vex/configs");
            Ok(chars_to_string(&out))
        },
        None => Err(
            VexError::StorageUnavailable("the home directory cannot be determined".to_owned()),
        ),
    }
}

} // verus!
