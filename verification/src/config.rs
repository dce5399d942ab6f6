//! The configuration of the service, and where it is found.

use crate::text::same_text;
use vstd::prelude::*;
use vstd::string::*;

verus! {

/// The configuration file.
pub struct AppConfig {
    pub secret_key: String,
    pub clear_secret_key: String,
    pub fake_website: String,
    pub json_path: String,
    pub listen_address: String,
    pub expiration_hours: u64,
}

/// The largest body of a request that is sent on to the decoy site.
pub const MAX_PROXY_REQUEST_BODY_BYTES: usize = 1024 * 1024;

/// Argument `i` names the configuration file in the argument after it.
pub open spec fn names_config(args: Seq<Seq<char>>, i: int) -> bool {
    &&& 1 <= i < args.len() - 1
    &&& args[i] == "-c"@ || args[i] == "--config"@
}

/// `path` is the argument after the first flag that has one, or the usual place.
pub open spec fn is_config_path(args: Seq<Seq<char>>, path: Seq<char>) -> bool {
    if exists|i: int| names_config(args, i) {
        exists|i: int| #[trigger]
            names_config(args, i) && path == args[i + 1] && forall|k: int|
                k < i ==> !names_config(args, k)
    } else {
        path == "config.toml"@
    }
}

/// The path of the configuration file, from the arguments of the program.
pub fn config_path(args: &Vec<String>) -> (path: String)
    ensures
        is_config_path(args.deep_view(), path@),
{
    let mut i: usize = 1;
    let len: usize = args.len();
    while i < len
        invariant
            len == args@.len(),
            1 <= i,
            forall|k: int| k < i ==> !names_config(args.deep_view(), k),
        decreases len - i,
    {
        if (same_text(args[i].as_str(), "-c") || same_text(args[i].as_str(), "--config")) && i + 1
            < len {
            assert(names_config(args.deep_view(), i as int));
            return args[i + 1].clone();
        }
        i = i + 1;
    }
    assert(forall|k: int| !names_config(args.deep_view(), k));
    "config.toml".to_owned()
}

/// The directory and the name of the state file: it stands next to the configuration file, or in
/// the current directory if the path of that file names no directory.
pub fn state_file_place(config_dir: Option<&str>) -> (place: (String, String))
    ensures
        place.0@ == match config_dir {
            Some(dir) => dir@,
            None => "."@,
        },
        place.1@ == "ip_whitelist.json.db"@,
{
    let dir: String = match config_dir {
        Some(dir) => dir.to_owned(),
        None => ".".to_owned(),
    };
    (dir, "ip_whitelist.json.db".to_owned())
}

} // verus!
