//! Configuration: where the database and the model cache live, and how `~` is expanded.
//!
//! Paths are held as the bytes of the operating system's path (they need not be UTF-8).
use vstd::prelude::*;
use vstd::string::StringSliceAdditionalSpecFns;
use vstd::utf8::{decode_utf8, encode_utf8, valid_utf8};
use crate::text::{chars_of, push_char, str_from_utf8, string_from_chars};

verus! {

/// Configuration for sift.
pub struct Config {
    /// Path to the SQLite database file.
    pub db_path: Vec<u8>,
    /// Path for cached model weights.
    pub model_cache: Vec<u8>,
}

/// `PathBuf::from(base).join(rel)` on Unix: an absolute `rel` replaces `base`; otherwise a `/`
/// is put between them unless `base` is empty or already ends with one.
pub open spec fn join_path(base: Seq<char>, rel: Seq<char>) -> Seq<char> {
    if rel.len() > 0 && rel[0] == '/' {
        rel
    } else if base.len() > 0 && base.last() != '/' {
        base + seq!['/'] + rel
    } else {
        base + rel
    }
}

/// Whether `path` starts with `~/`.
pub open spec fn starts_with_home(path: Seq<char>) -> bool {
    path.len() >= 2 && path[0] == '~' && path[1] == '/'
}

/// What `expand_home` returns: a path starting with `~/` has that prefix replaced by the home
/// directory (when it is known), joined as `PathBuf::join` does; any other path is unchanged.
pub open spec fn spec_expand_home(path: Seq<char>, home: Option<Seq<char>>) -> Seq<char> {
    if starts_with_home(path) && home is Some {
        join_path(home->0, path.skip(2))
    } else {
        path
    }
}

/// What `expand_home_path` returns for the bytes of a path: a UTF-8 path is expanded as by
/// `spec_expand_home`; any other path is unchanged.
pub open spec fn spec_expand_home_path(path: Seq<u8>, home: Option<Seq<char>>) -> Seq<u8> {
    if valid_utf8(path) {
        encode_utf8(spec_expand_home(decode_utf8(path), home))
    } else {
        path
    }
}

/// The home directory as a sequence of characters, when it is known.
pub open spec fn home_view(home: Option<&str>) -> Option<Seq<char>> {
    match home {
        Some(h) => Some(h@),
        None => None,
    }
}

/// An optional path by its bytes.
pub open spec fn bytes_view(p: Option<Vec<u8>>) -> Option<Seq<u8>> {
    match p {
        Some(v) => Some(v@),
        None => None,
    }
}

/// An optional configuration by the bytes of its two paths.
pub open spec fn config_view(c: Option<Config>) -> Option<(Seq<u8>, Seq<u8>)> {
    match c {
        Some(c) => Some((c.db_path@, c.model_cache@)),
        None => None,
    }
}

/// Expand `~` in a string path to the home directory.
pub fn expand_home(path: &str, home: Option<&str>) -> (r: String)
    ensures
        r@ == spec_expand_home(path@, home_view(home)),
{
    let cs = chars_of(path);
    if cs.len() >= 2 && cs[0] == '~' && cs[1] == '/' {
        if let Some(h) = home {
            let hc = chars_of(h);
            let rel = string_from_chars(&cs, 2, cs.len());
            assert(rel@ =~= path@.skip(2));
            if cs.len() > 2 && cs[2] == '/' {
                return rel;
            }
            let mut r = h.to_string();
            if hc.len() > 0 && hc[hc.len() - 1] != '/' {
                push_char(&mut r, '/');
            }
            r.append(rel.as_str());
            assert(r@ =~= spec_expand_home(path@, home_view(home)));
            return r;
        }
    }
    path.to_string()
}

/// Expand `~` in a path (given by its bytes) to the home directory; a path that is not UTF-8
/// is returned unchanged.
pub fn expand_home_path(path: &[u8], home: Option<&str>) -> (r: Vec<u8>)
    ensures
        r@ == spec_expand_home_path(path@, home_view(home)),
{
    match str_from_utf8(path) {
        Some(s) => {
            let e = expand_home(s, home);
            proof {
                vstd::utf8::decode_utf8_encode_utf8(path@);
                assert(s.spec_bytes() == encode_utf8(s@));
                vstd::utf8::encode_utf8_decode_utf8(s@);
            }
            let b = vstd::slice::slice_to_vec(e.as_str().as_bytes());
            b
        },
        None => vstd::slice::slice_to_vec(path),
    }
}

/// The default database path, before expansion.
pub open spec fn default_db_path() -> Seq<char> {
    seq![
        '~', '/', '.', 'l', 'o', 'c', 'a', 'l', '/', 's', 'h', 'a', 'r', 'e', '/', 's', 'i', 'f',
        't', '/', 'i', 'n', 'd', 'e', 'x', '.', 'd', 'b',
    ]
}

/// The default model cache path, before expansion.
pub open spec fn default_model_cache() -> Seq<char> {
    seq![
        '~', '/', '.', 'l', 'o', 'c', 'a', 'l', '/', 's', 'h', 'a', 'r', 'e', '/', 's', 'i', 'f',
        't', '/', 'm', 'o', 'd', 'e', 'l', 's',
    ]
}

/// The default configuration for a user whose home directory is `home`.
pub open spec fn spec_default_config(home: Option<Seq<char>>) -> (Seq<u8>, Seq<u8>) {
    (
        encode_utf8(spec_expand_home(default_db_path(), home)),
        encode_utf8(spec_expand_home(default_model_cache(), home)),
    )
}

/// What `Config::resolve` gives for the database path and the model cache.
pub open spec fn spec_resolve(
    file_config: Option<(Seq<u8>, Seq<u8>)>,
    db_path_override: Option<Seq<u8>>,
    env_model_cache: Option<Seq<u8>>,
    home: Option<Seq<char>>,
) -> (Seq<u8>, Seq<u8>) {
    let base = match file_config {
        Some(c) => c,
        None => spec_default_config(home),
    };
    let db = match db_path_override {
        Some(p) => spec_expand_home_path(p, home),
        None => base.0,
    };
    let mc = match env_model_cache {
        Some(p) => p,
        None => base.1,
    };
    (spec_expand_home_path(db, home), spec_expand_home_path(mc, home))
}

impl Config {
    /// The default configuration: database and model cache under `~/.local/share/sift`.
    pub fn defaults(home: Option<&str>) -> (r: Config)
        ensures
            (r.db_path@, r.model_cache@) == spec_default_config(home_view(home)),
    {
        let db = "~/.local/share/sift/index.db";
        let mc = "~/.local/share/sift/models";
        proof {
            reveal_strlit("~/.local/share/sift/index.db");
            reveal_strlit("~/.local/share/sift/models");
            assert(db@ =~= default_db_path());
            assert(mc@ =~= default_model_cache());
        }
        let d = expand_home(db, home);
        let m = expand_home(mc, home);
        Config {
            db_path: vstd::slice::slice_to_vec(d.as_str().as_bytes()),
            model_cache: vstd::slice::slice_to_vec(m.as_str().as_bytes()),
        }
    }

    /// Resolve the configuration: the config file's settings (or the defaults when there is no
    /// file), then the command-line database path, then the model cache from the environment;
    /// both paths are `~`-expanded at the end.
    pub fn resolve(
        file_config: Option<Config>,
        db_path_override: Option<Vec<u8>>,
        env_model_cache: Option<Vec<u8>>,
        home: Option<&str>,
    ) -> (r: Config)
        ensures
            (r.db_path@, r.model_cache@) == spec_resolve(
                config_view(file_config),
                bytes_view(db_path_override),
                bytes_view(env_model_cache),
                home_view(home),
            ),
            db_path_override matches Some(p) ==> r.db_path@ == spec_expand_home_path(
                spec_expand_home_path(p@, home_view(home)),
                home_view(home),
            ),
            env_model_cache matches Some(m) ==> r.model_cache@ == spec_expand_home_path(
                m@,
                home_view(home),
            ),
            db_path_override is None ==> r.db_path@ == spec_expand_home_path(
                match file_config {
                    Some(c) => c.db_path@,
                    None => encode_utf8(spec_expand_home(default_db_path(), home_view(home))),
                },
                home_view(home),
            ),
            env_model_cache is None ==> r.model_cache@ == spec_expand_home_path(
                match file_config {
                    Some(c) => c.model_cache@,
                    None => encode_utf8(spec_expand_home(default_model_cache(), home_view(home))),
                },
                home_view(home),
            ),
    {
        let mut config = match file_config {
            Some(c) => c,
            None => Config::defaults(home),
        };
        if let Some(p) = db_path_override {
            config.db_path = expand_home_path(p.as_slice(), home);
        }
        if let Some(p) = env_model_cache {
            config.model_cache = p;
        }
        let db_path = expand_home_path(config.db_path.as_slice(), home);
        let model_cache = expand_home_path(config.model_cache.as_slice(), home);
        Config { db_path, model_cache }
    }
}

/// Where each setting comes from: a database path given on the command line wins, whether
/// or not there is a config file, and so does a model cache from the environment; without
/// them the config file's setting is used, or without a file the default; every path is
/// `~`-expanded.
pub proof fn lemma_resolve_sources(
    file_config: Option<(Seq<u8>, Seq<u8>)>,
    db_path_override: Option<Seq<u8>>,
    env_model_cache: Option<Seq<u8>>,
    home: Option<Seq<char>>,
)
    ensures
        ({
            let (db, mc) = spec_resolve(file_config, db_path_override, env_model_cache, home);
            &&& db_path_override matches Some(p) ==> db == spec_expand_home_path(
                spec_expand_home_path(p, home),
                home,
            )
            &&& env_model_cache matches Some(m) ==> mc == spec_expand_home_path(m, home)
            &&& db_path_override is None ==> (file_config matches Some(c) ==> db
                == spec_expand_home_path(c.0, home))
            &&& env_model_cache is None ==> (file_config matches Some(c) ==> mc
                == spec_expand_home_path(c.1, home))
            &&& db_path_override is None && file_config is None ==> db == spec_expand_home_path(
                encode_utf8(spec_expand_home(default_db_path(), home)),
                home,
            )
            &&& env_model_cache is None && file_config is None ==> mc == spec_expand_home_path(
                encode_utf8(spec_expand_home(default_model_cache(), home)),
                home,
            )
        }),
{
}

} // verus!
