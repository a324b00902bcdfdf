use vstd::prelude::*;

verus! {

/// The server port used when the configuration names none.
pub const DEFAULT_PORT: u16 = 64738;

/// The user name used when the configuration names none.
pub const DEFAULT_USERNAME: &'static str = "mymumd";

/// Whether the server's certificate is checked when the configuration does
/// not say.
pub const DEFAULT_CHECK_CERT: bool = true;

/// The configuration file read when no user configuration file exists.
pub const SYSTEM_CONFIG_PATH: &'static str = "/etc/mymumdrc";

/// The connection settings as written in the configuration file, where all
/// but the host may be left out.
pub struct FileSettings {
    pub host: String,
    pub port: Option<u16>,
    pub channel: Option<String>,
    pub username: Option<String>,
    pub password: Option<String>,
    pub check_cert: Option<bool>,
}

/// The connection settings with every default filled in.
pub struct ServerSettings {
    pub host: String,
    pub port: u16,
    pub channel: Option<String>,
    pub username: String,
    pub password: Option<String>,
    pub check_cert: bool,
}

/// The view of an optional string.
pub open spec fn opt_view(s: Option<String>) -> Option<Seq<char>> {
    match s {
        Some(v) => Some(v@),
        None => None,
    }
}

impl ServerSettings {
    /// Fills in the defaults for what the file leaves out: port 64738, user
    /// name "mymumd", and checking the server's certificate.
    pub fn from_file(file: FileSettings) -> (s: ServerSettings)
        ensures
            s.host@ == file.host@,
            s.port == (match file.port { Some(p) => p, None => DEFAULT_PORT }),
            opt_view(s.channel) == opt_view(file.channel),
            s.username@ == (match file.username { Some(u) => u@, None => DEFAULT_USERNAME@ }),
            opt_view(s.password) == opt_view(file.password),
            s.check_cert == (match file.check_cert { Some(c) => c, None => DEFAULT_CHECK_CERT }),
    {
        let port = match file.port {
            Some(p) => p,
            None => DEFAULT_PORT,
        };
        let username = match file.username {
            Some(u) => u,
            None => String::from_str(DEFAULT_USERNAME),
        };
        let check_cert = match file.check_cert {
            Some(c) => c,
            None => DEFAULT_CHECK_CERT,
        };
        ServerSettings {
            host: file.host,
            port,
            channel: file.channel,
            username,
            password: file.password,
            check_cert,
        }
    }
}

/// The user configuration file that the environment points at: under
/// `$XDG_CONFIG_HOME` if that is set, otherwise under `$HOME/.config` if
/// that is set.
pub open spec fn user_config_path_spec(xdg_config_home: Option<Seq<char>>, home: Option<Seq<char>>) -> Option<Seq<char>> {
    match xdg_config_home {
        Some(x) => Some(x + "/mymumdrc"@),
        None => match home {
            Some(h) => Some(h + "/.config/mymumdrc"@),
            None => None,
        },
    }
}

/// `$XDG_CONFIG_HOME/mymumdrc` when that variable is set, whatever `HOME`
/// is; `$HOME/.config/mymumdrc` when only `HOME` is set; none otherwise.
pub proof fn lemma_user_config_path(x: Seq<char>, h: Option<Seq<char>>, home: Seq<char>)
    ensures
        user_config_path_spec(Some(x), h) == Some(x + "/mymumdrc"@),
        user_config_path_spec(None, Some(home)) == Some(home + "/.config/mymumdrc"@),
        user_config_path_spec(None, None) == None::<Seq<char>>,
{
}

/// The user configuration file for the given values of `XDG_CONFIG_HOME`
/// and `HOME` (`None` where a variable is not set).
pub fn user_config_path(xdg_config_home: Option<&str>, home: Option<&str>) -> (p: Option<String>)
    ensures
        opt_view(p) == user_config_path_spec(
            match xdg_config_home { Some(x) => Some(x@), None => None },
            match home { Some(h) => Some(h@), None => None },
        ),
{
    match xdg_config_home {
        Some(x) => Some(String::from_str(x).concat("/mymumdrc")),
        None => match home {
            Some(h) => Some(String::from_str(h).concat("/.config/mymumdrc")),
            None => None,
        },
    }
}

/// The configuration file to read: the user's file if there is one and it
/// exists, otherwise the system-wide file.
pub fn get_cfg_path(user_path: Option<String>, user_path_exists: bool) -> (p: String)
    ensures
        p@ == (match user_path {
            Some(u) if user_path_exists => u@,
            _ => SYSTEM_CONFIG_PATH@,
        }),
{
    match user_path {
        Some(u) => if user_path_exists {
            u
        } else {
            String::from_str(SYSTEM_CONFIG_PATH)
        },
        None => String::from_str(SYSTEM_CONFIG_PATH),
    }
}

} // verus!
