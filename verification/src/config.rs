use vstd::prelude::*;
use crate::keyed::{first_key, lemma_first_key_prefix, lemma_first_key_range};
use crate::profile::opt_view;
use crate::sorted::strs;
use crate::text::{chars_of, parse_uint, parse_uint_chars};

verus! {

/// A copy of an optional string.
pub fn clone_opt(o: &Option<String>) -> (r: Option<String>)
    ensures
        r == *o,
{
    match o {
        Some(s) => Some(s.clone()),
        None => None,
    }
}

/// Display metadata of one profile.
#[derive(Debug, Clone)]
pub struct ProfileMeta {
    pub label: Option<String>,
    pub description: Option<String>,
    pub emoji: Option<String>,
}

pub struct ProfileMetaView {
    pub label: Option<Seq<char>>,
    pub description: Option<Seq<char>>,
    pub emoji: Option<Seq<char>>,
}

impl View for ProfileMeta {
    type V = ProfileMetaView;

    open spec fn view(&self) -> ProfileMetaView {
        ProfileMetaView {
            label: opt_view(self.label),
            description: opt_view(self.description),
            emoji: opt_view(self.emoji),
        }
    }
}

impl ProfileMeta {
    /// Metadata with nothing set.
    pub fn empty() -> (r: ProfileMeta)
        ensures
            r.label is None && r.description is None && r.emoji is None,
    {
        ProfileMeta { label: None, description: None, emoji: None }
    }

    /// A copy of this metadata.
    pub fn duplicate(&self) -> (r: ProfileMeta)
        ensures
            r == *self,
    {
        ProfileMeta {
            label: clone_opt(&self.label),
            description: clone_opt(&self.description),
            emoji: clone_opt(&self.emoji),
        }
    }
}

impl Default for ProfileMeta {
    fn default() -> (r: ProfileMeta)
        ensures
            r.label is None && r.description is None && r.emoji is None,
    {
        ProfileMeta::empty()
    }
}

/// The metadata configured for one profile id.
#[derive(Debug)]
pub struct ProfileEntry {
    pub id: String,
    pub meta: ProfileMeta,
}

/// The metadata configuration: display metadata per profile id.
#[derive(Debug)]
pub struct Config {
    pub profiles: Vec<ProfileEntry>,
}

impl Default for Config {
    fn default() -> (r: Config)
        ensures
            r.profiles@.len() == 0,
    {
        Config::empty()
    }
}

pub open spec fn entry_ids(p: Seq<ProfileEntry>) -> Seq<Seq<char>> {
    p.map_values(|e: ProfileEntry| e.id@)
}

impl Config {
    /// The configuration with no metadata at all.
    pub fn empty() -> (r: Config)
        ensures
            r.profiles@.len() == 0,
    {
        Config { profiles: Vec::new() }
    }

    /// The position of `id`'s metadata, or -1 when none is configured.
    pub open spec fn meta_index(&self, id: Seq<char>) -> int {
        first_key(entry_ids(self.profiles@), id)
    }

    /// The metadata configured for `id`, if any (the first entry for it).
    pub open spec fn meta_of(&self, id: Seq<char>) -> Option<ProfileMeta> {
        let i = self.meta_index(id);
        if i >= 0 {
            Some(self.profiles@[i].meta)
        } else {
            None
        }
    }

    /// The metadata configured for `id`, if any.
    pub fn get(&self, id: &str) -> (r: Option<&ProfileMeta>)
        ensures
            match self.meta_of(id@) {
                Some(m) => r matches Some(x) && *x == m,
                None => r is None,
            },
    {
        let ghost keys = entry_ids(self.profiles@);
        let ghost k = id@;
        let mut i: usize = 0;
        assert(keys.take(0) =~= Seq::<Seq<char>>::empty());
        while i < self.profiles.len()
            invariant
                keys == entry_ids(self.profiles@),
                k == id@,
                i <= self.profiles@.len(),
                first_key(keys.take(i as int), k) == -1,
            decreases self.profiles@.len() - i,
        {
            proof {
                lemma_first_key_prefix(keys, k, i as int);
            }
            let idc = chars_of(self.profiles[i].id.as_str());
            let want = chars_of(id);
            if crate::status::chars_eq(idc.as_slice(), want.as_slice()) {
                proof {
                    lemma_first_key_prefix(keys, k, i + 1);
                }
                return Some(&self.profiles[i].meta);
            }
            i = i + 1;
        }
        assert(keys.take(i as int) =~= keys);
        None
    }

    /// The metadata configured for `id`, or empty metadata when there is none.
    pub fn meta_or_empty(&self, id: &str) -> (r: ProfileMeta)
        ensures
            match self.meta_of(id@) {
                Some(m) => r == m,
                None => r.label is None && r.description is None && r.emoji is None,
            },
    {
        match self.get(id) {
            Some(m) => m.duplicate(),
            None => ProfileMeta::empty(),
        }
    }
}

/// Why a configuration file was refused.
#[derive(Debug, Clone, Copy, PartialEq, Eq)]
pub enum PermError {
    /// Others may write the file; `mode` holds its permission bits.
    WorldWritable { mode: u32 },
    /// The file belongs to `owner`, neither root nor `euid` nor `allowed`.
    BadOwner { owner: u32, euid: u32, allowed: u32 },
}

/// The uid that `SUDO_UID` names, when it is set and parses as a `u32`.
pub open spec fn sudo_uid_of(sudo_uid: Option<Seq<char>>) -> Option<nat> {
    match sudo_uid {
        Some(s) => parse_uint(s, 0xffff_ffff),
        None => None,
    }
}

/// The uid that may own the configuration besides root and `euid`: the calling
/// user's under sudo, else `euid`.
pub open spec fn allowed_uid(euid: u32, sudo_uid: Option<Seq<char>>) -> u32 {
    match sudo_uid_of(sudo_uid) {
        Some(u) => u as u32,
        None => euid,
    }
}

/// The verdict on a configuration file's mode and owner.
pub open spec fn perms_verdict(mode: u32, owner: u32, euid: u32, sudo_uid: Option<Seq<char>>) -> Result<(), PermError> {
    let allowed = allowed_uid(euid, sudo_uid);
    if mode & 2 != 0 {
        Err(PermError::WorldWritable { mode: mode & 0o7777 })
    } else if owner != 0 && owner != euid && owner != allowed {
        Err(PermError::BadOwner { owner, euid, allowed })
    } else {
        Ok(())
    }
}

/// wg-quick's hardening, on a configuration file's `mode` and `owner`: refuse a
/// world-writable file, and one owned by anyone but root, `euid` or the calling
/// user named by `SUDO_UID`.
pub fn check_perms(mode: u32, owner: u32, euid: u32, sudo_uid: Option<&str>) -> (r: Result<(), PermError>)
    ensures
        r == perms_verdict(
            mode,
            owner,
            euid,
            match sudo_uid {
                Some(s) => Some(s@),
                None => None,
            },
        ),
{
    let allowed = match sudo_uid {
        Some(s) => {
            let cs = chars_of(s);
            match parse_uint_chars(cs.as_slice(), 0xffff_ffff) {
                Some(u) => u as u32,
                None => euid,
            }
        },
        None => euid,
    };
    if mode & 2 != 0 {
        return Err(PermError::WorldWritable { mode: mode & 0o7777 });
    }
    if owner != 0 && owner != euid && owner != allowed {
        return Err(PermError::BadOwner { owner, euid, allowed });
    }
    Ok(())
}

/// A configuration that others may write is never accepted, and an accepted one
/// belongs to root, to `euid` or to the user that `SUDO_UID` names.
pub proof fn lemma_accepted_config_is_safe(mode: u32, owner: u32, euid: u32, sudo_uid: Option<Seq<char>>)
    requires
        perms_verdict(mode, owner, euid, sudo_uid) is Ok,
    ensures
        mode & 2 == 0,
        owner == 0 || owner == euid || owner == allowed_uid(euid, sudo_uid),
{
}

/// The verdict looks at the world-write bit and the owner alone: a file is refused as
/// world-writable exactly when others may write it (with its permission bits
/// reported), and a file others may not write is accepted exactly when root, `euid` or
/// the allowed uid owns it, whatever its other mode bits (group-writable included).
pub proof fn lemma_perms_verdict_exact(mode: u32, owner: u32, euid: u32, sudo_uid: Option<Seq<char>>)
    ensures
        (perms_verdict(mode, owner, euid, sudo_uid) matches Err(PermError::WorldWritable { mode: m }))
            <==> mode & 2 != 0,
        perms_verdict(mode, owner, euid, sudo_uid) matches Err(PermError::WorldWritable { mode: m })
            ==> m == mode & 0o7777,
        perms_verdict(mode, owner, euid, sudo_uid) is Ok <==> (mode & 2 == 0 && (owner == 0 || owner
            == euid || owner == allowed_uid(euid, sudo_uid))),
        forall|other: u32|
            other & 2 == 0 && mode & 2 == 0 ==> #[trigger] perms_verdict(other, owner, euid, sudo_uid)
                == perms_verdict(mode, owner, euid, sudo_uid),
{
}

/// The places searched for a configuration when none is named, in order; the last
/// is `~/.wgswitch.json` when the home directory is known.
pub open spec fn system_defaults_spec() -> Seq<Seq<char>> {
    seq!["/etc/wgswitch.json"@, "/usr/local/etc/wgswitch.json"@]
}

/// The system-wide configuration paths searched first.
pub fn system_defaults() -> (r: Vec<String>)
    ensures
        strs(r@) == system_defaults_spec(),
{
    let r = vec![String::from_str("/etc/wgswitch.json"), String::from_str("/usr/local/etc/wgswitch.json")];
    assert(strs(r@) =~= system_defaults_spec());
    r
}

/// Why no configuration could be had.
#[derive(Debug, Clone, Copy, PartialEq, Eq)]
pub enum ConfigError {
    /// The configuration named on the command line does not exist.
    Missing,
}

/// What to do when the chosen configuration file does not exist: a file named on
/// the command line must exist; a default one may be absent, and then no metadata is set.
pub fn when_missing(explicit: bool) -> (r: Result<Config, ConfigError>)
    ensures
        explicit ==> r == Err::<Config, ConfigError>(ConfigError::Missing),
        !explicit ==> (r matches Ok(c) && c.profiles@.len() == 0),
{
    if explicit {
        Err(ConfigError::Missing)
    } else {
        Ok(Config::empty())
    }
}

} // verus!
