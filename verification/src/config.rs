//! The frozen settings of a run, and how raw option values resolve.
//!
//! Every named option resolves by the same precedence, highest first: the
//! explicit command-line value, the env-file entry, the process
//! environment.  The variable map handed to the renderer is the env-file
//! map overridden by the process environment.  Ownership comes from
//! `UID`/`USER` (numeric wins) and `GID`/`GROUP`, the group falling back to
//! the owner's primary group when unspecified.

use vstd::prelude::*;
use vstd::utf8::encode_utf8;
use crate::chars::str_to_chars;
use crate::errors::ConfigError;
use crate::paths::spec_join;
use crate::bytes::push_all;
use crate::vars::{map_of, VarMap};

verus! {

/// A value for one option from each layer, highest precedence first: the
/// command line, the env-file, the process environment.  The first layer
/// that holds a value wins.
pub fn resolve_setting(
    cli: Option<String>,
    file_value: Option<String>,
    env_value: Option<String>,
) -> (r: Option<String>)
    ensures
        r == if cli is Some {
            cli
        } else if file_value is Some {
            file_value
        } else {
            env_value
        },
{
    match cli {
        Some(v) => Some(v),
        None => match file_value {
            Some(v) => Some(v),
            None => env_value,
        },
    }
}

/// The numeric value of a decimal digit string, unbounded.
pub open spec fn digits_val(s: Seq<char>) -> int
    decreases s.len(),
{
    if s.len() == 0 {
        0
    } else {
        digits_val(s.drop_last()) * 10 + (s.last() as int - '0' as int)
    }
}

pub open spec fn is_digit(c: char) -> bool {
    '0' <= c <= '9'
}

/// What parsing an unsigned 32-bit decimal yields: the value when the text
/// is one or more digits and fits, nothing otherwise.
pub open spec fn spec_parse_u32(s: Seq<char>) -> Option<u32> {
    if s.len() > 0 && (forall|j: int| 0 <= j < s.len() ==> is_digit(s[j])) && digits_val(s)
        <= u32::MAX {
        Some(digits_val(s) as u32)
    } else {
        None
    }
}

proof fn lemma_digits_val_nonneg(s: Seq<char>)
    requires
        forall|j: int| 0 <= j < s.len() ==> is_digit(s[j]),
    ensures
        digits_val(s) >= 0,
    decreases s.len(),
{
    if s.len() > 0 {
        lemma_digits_val_nonneg(s.drop_last());
    }
}

proof fn lemma_digits_val_monotone(s: Seq<char>, i: int)
    requires
        0 <= i <= s.len(),
        forall|j: int| 0 <= j < s.len() ==> is_digit(s[j]),
    ensures
        digits_val(s) >= digits_val(s.take(i)),
    decreases s.len() - i,
{
    if i < s.len() {
        lemma_digits_val_monotone(s, i + 1);
        assert(s.take(i + 1).drop_last() =~= s.take(i));
        assert(s.take(i + 1).last() == s[i]);
        assert forall|j: int| 0 <= j < s.take(i).len() implies is_digit(s.take(i)[j]) by {
            assert(s.take(i)[j] == s[j]);
        }
        lemma_digits_val_nonneg(s.take(i));
        assert(is_digit(s[i]));
        assert(s[i] as int - '0' as int >= 0);
        assert(digits_val(s.take(i + 1)) == digits_val(s.take(i)) * 10 + (s[i] as int
            - '0' as int));
        assert(digits_val(s.take(i)) * 10 >= digits_val(s.take(i)));
    } else {
        assert(s.take(i) =~= s);
    }
}

/// Parse an unsigned 32-bit decimal number.
pub fn parse_u32(s: &str) -> (r: Option<u32>)
    ensures
        r == spec_parse_u32(s@),
{
    let cs = str_to_chars(s);
    let n = cs.len();
    if n == 0 {
        return None;
    }
    let mut acc: u32 = 0;
    let mut i: usize = 0;
    while i < n
        invariant
            0 <= i <= n == cs@.len(),
            cs@ == s@,
            forall|j: int| 0 <= j < i ==> is_digit(cs@[j]),
            acc == digits_val(cs@.take(i as int)),
        decreases n - i,
    {
        let c = cs[i];
        if !(c >= '0' && c <= '9') {
            return None;
        }
        let d: u32 = (c as u32) - 48;
        proof {
            assert(cs@.take(i + 1).drop_last() =~= cs@.take(i as int));
            assert(cs@.take(i + 1).last() == cs@[i as int]);
        }
        if acc > (u32::MAX - d) / 10 {
            proof {
                assert(digits_val(cs@.take(i + 1)) == acc * 10 + d);
                assert(digits_val(cs@.take(i + 1)) > u32::MAX) by {
                    assert(acc >= (u32::MAX - d) / 10 + 1);
                    assert(acc * 10 >= ((u32::MAX - d) / 10 + 1) * 10) by (nonlinear_arith)
                        requires
                            acc >= (u32::MAX - d) / 10 + 1,
                    ;
                    assert(((u32::MAX - d) / 10 + 1) * 10 > u32::MAX - d);
                }
                if forall|j: int| 0 <= j < cs@.len() ==> is_digit(cs@[j]) {
                    lemma_digits_val_monotone(cs@, i + 1);
                    assert(digits_val(cs@) > u32::MAX);
                }
            }
            return None;
        }
        acc = acc * 10 + d;
        i = i + 1;
    }
    proof {
        assert(cs@.take(n as int) =~= cs@);
    }
    Some(acc)
}

/// How a file owner or group is named: a numeric id, or an account name
/// the shell resolves through the system's database.
pub enum IdSpec {
    Numeric(u32),
    Named(String),
}

/// Resolve the owner: a `UID` value that parses as a number wins, then a
/// `USER` name; with neither the configuration fails.
pub fn resolve_owner(uid: Option<String>, user: Option<String>) -> (r: Result<IdSpec, ConfigError>)
    ensures
        match r {
            Ok(IdSpec::Numeric(v)) => uid matches Some(s) && spec_parse_u32(s@) == Some(v),
            Ok(IdSpec::Named(name)) => user == Some(name) && !(uid matches Some(s)
                && spec_parse_u32(s@) is Some),
            Err(e) => e == ConfigError::MissingOwner && user is None && !(uid matches Some(s)
                && spec_parse_u32(s@) is Some),
        },
{
    if let Some(s) = &uid {
        if let Some(v) = parse_u32(s.as_str()) {
            return Ok(IdSpec::Numeric(v));
        }
    }
    match user {
        Some(name) => Ok(IdSpec::Named(name)),
        None => Err(ConfigError::MissingOwner),
    }
}

/// Resolve the group: a `GID` number, then a `GROUP` name; with neither the
/// group falls back to the resolved owner's primary group, which only the
/// shell can look up.
pub fn resolve_group(gid: Option<String>, group: Option<String>) -> (r: Option<IdSpec>)
    ensures
        match r {
            Some(IdSpec::Numeric(v)) => gid matches Some(s) && spec_parse_u32(s@) == Some(v),
            Some(IdSpec::Named(name)) => group == Some(name) && !(gid matches Some(s)
                && spec_parse_u32(s@) is Some),
            None => group is None && !(gid matches Some(s) && spec_parse_u32(s@) is Some),
        },
{
    if let Some(s) = &gid {
        if let Some(v) = parse_u32(s.as_str()) {
            return Some(IdSpec::Numeric(v));
        }
    }
    match group {
        Some(name) => Some(IdSpec::Named(name)),
        None => None,
    }
}

/// One named context: its name, and the subtree of the checkout that holds
/// its files.
pub struct ServerContext {
    pub name: String,
    pub source_root: Vec<u8>,
}

/// Where a context's files live: `{repo}/contexts/{name}`.
pub open spec fn spec_context_root(repo: Seq<u8>, name: Seq<char>) -> Seq<u8> {
    spec_join(spec_join(repo, encode_utf8("contexts"@)), encode_utf8(name))
}

impl ServerContext {
    pub fn new(name: String, repo_path: &str) -> (r: ServerContext)
        ensures
            r.name == name,
            r.source_root@ == spec_context_root(encode_utf8(repo_path@), name@),
    {
        let mut repo: Vec<u8> = Vec::new();
        push_all(&mut repo, &vstd::slice::slice_to_vec(repo_path.as_bytes()));
        let contexts_dir = vstd::slice::slice_to_vec("contexts".as_bytes());
        let base = crate::paths::join_under_root(&repo, &contexts_dir);
        let name_bytes = vstd::slice::slice_to_vec(name.as_str().as_bytes());
        let source_root = crate::paths::join_under_root(&base, &name_bytes);
        proof {
            assert(repo@ =~= encode_utf8(repo_path@));
        }
        ServerContext { name, source_root }
    }
}

/// The settings of one run, frozen after resolution.
pub struct Settings {
    pub destination_root: Vec<u8>,
    pub repo_storage: String,
    pub repo_branch: String,
    pub contexts: Vec<ServerContext>,
    pub variables: VarMap,
}

impl Settings {
    /// A well-formed run has at least one context and a duplicate-free
    /// variable map.
    pub open spec fn wf(&self) -> bool {
        self.contexts@.len() > 0 && self.variables.wf()
    }

    /// Freeze the settings.  The branch defaults to `master`; an empty
    /// context list is a configuration error, and so is a destination that
    /// is empty or the filesystem root — a run never targets `/`.
    pub fn new(
        destination_root: Vec<u8>,
        repo_storage: String,
        repo_branch: Option<String>,
        contexts: Vec<ServerContext>,
        variables: VarMap,
    ) -> (r: Result<Settings, ConfigError>)
        requires
            variables.wf(),
        ensures
            match r {
                Ok(s) => {
                    &&& contexts@.len() > 0
                    &&& destination_root@.len() > 0
                    &&& destination_root@ != seq![crate::paths::SLASH]
                    &&& s.destination_root == destination_root
                    &&& s.repo_storage == repo_storage
                    &&& s.repo_branch@ == match repo_branch {
                        Some(b) => b@,
                        None => "master"@,
                    }
                    &&& s.contexts == contexts
                    &&& s.variables == variables
                    &&& s.wf()
                },
                Err(ConfigError::MissingDestination) => destination_root@.len() == 0
                    || destination_root@ == seq![crate::paths::SLASH],
                Err(e) => e == ConfigError::NoContexts && contexts@.len() == 0
                    && destination_root@.len() > 0 && destination_root@ != seq![
                    crate::paths::SLASH,
                ],
            },
    {
        if destination_root.len() == 0 || (destination_root.len() == 1 && destination_root[0]
            == crate::paths::SLASH) {
            proof {
                if destination_root@.len() == 1 {
                    assert(destination_root@ =~= seq![crate::paths::SLASH]);
                }
            }
            return Err(ConfigError::MissingDestination);
        }
        proof {
            if destination_root@ == seq![crate::paths::SLASH] {
                assert(destination_root@.len() == 1);
                assert(destination_root@[0] == crate::paths::SLASH);
            }
        }
        if contexts.len() == 0 {
            return Err(ConfigError::NoContexts);
        }
        let repo_branch = match repo_branch {
            Some(b) => b,
            None => String::from_str("master"),
        };
        Ok(Settings { destination_root, repo_storage, repo_branch, contexts, variables })
    }
}

/// The variable map exposed to the renderer: the env-file entries overridden
/// by the process environment.
pub fn build_variables(file_vars: VarMap, process_env: Vec<(String, String)>) -> (r: VarMap)
    requires
        file_vars.wf(),
    ensures
        r@ == file_vars@.union_prefer_right(map_of(process_env@)),
        r.wf(),
{
    let mut m = file_vars;
    m.insert_all(process_env);
    m
}

} // verus!
