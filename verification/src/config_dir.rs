use vstd::prelude::*;

use vstd::string::{StringExecFns, StrSliceExecFns};

verus! {

/// `name` appended to the directory `dir` with a single separating
/// slash.
pub open spec fn spec_path_join(dir: Seq<char>, name: Seq<char>) -> Seq<char> {
    if dir.len() > 0 && dir.last() == '/' {
        dir + name
    } else {
        dir + seq!['/'] + name
    }
}

/// Joins a directory and a file name with a single separating slash.
pub fn path_join(dir: &str, name: &str) -> (r: String)
    ensures
        r@ == spec_path_join(dir@, name@),
{
    let n = dir.unicode_len();
    let mut s = String::from_str(dir);
    if n == 0 || dir.get_char(n - 1) != '/' {
        s.append("/");
        proof {
            reveal_strlit("/");
            assert("/"@ =~= seq!['/']);
        }
    }
    s.append(name);
    s
}

/// The configuration directory and the well-known file paths inside it:
/// the main configuration file and the server list file.
pub struct ConfigDir {
    base_dir: String,
    config_filename: String,
    server_filename: String,
}

impl ConfigDir {
    /// The directory itself.
    pub closed spec fn spec_config_dir(&self) -> Seq<char> {
        self.base_dir@
    }

    /// The path of the main configuration file.
    pub closed spec fn spec_config_filename(&self) -> Seq<char> {
        self.config_filename@
    }

    /// The path of the server list file.
    pub closed spec fn spec_server_filename(&self) -> Seq<char> {
        self.server_filename@
    }

    pub fn new(dir: &str) -> (r: ConfigDir)
        ensures
            r.spec_config_dir() == dir@,
            r.spec_config_filename() == spec_path_join(dir@, "rmule.conf"@),
            r.spec_server_filename() == spec_path_join(dir@, "server.bin"@),
    {
        ConfigDir {
            base_dir: String::from_str(dir),
            config_filename: path_join(dir, "rmule.conf"),
            server_filename: path_join(dir, "server.bin"),
        }
    }

    /// The path of the configuration directory.
    pub fn config_dir(&self) -> (r: &String)
        ensures
            r@ == self.spec_config_dir(),
    {
        &self.base_dir
    }

    /// The path of the main configuration file.
    pub fn config_filename(&self) -> (r: &String)
        ensures
            r@ == self.spec_config_filename(),
    {
        &self.config_filename
    }

    /// The path of the server list file.
    pub fn server_filename(&self) -> (r: &String)
        ensures
            r@ == self.spec_server_filename(),
    {
        &self.server_filename
    }
}

} // verus!
