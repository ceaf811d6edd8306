use vstd::prelude::*;
use crate::choice::{any_true, first_set, first_true};
use crate::keyed::{first_key, lemma_first_key_prefix, lemma_first_key_range};
use crate::profile::{name_error, validate_name, valid_name, NameError, ResolvedProfile};
use crate::sorted::{insert_sorted, strictly_sorted, strs};
use crate::text::{
    chars_of, contains_chars, contains_seq, lowercase, rows, slice_prefix, split_words,
    string_from_chars, to_lowercase, trim, trimmed, words,
};

verus! {

/// Where `wg-quick` may be installed, in the order searched.
pub open spec fn wg_quick_paths_spec() -> Seq<Seq<char>> {
    seq![
        "/usr/bin/wg-quick"@,
        "/usr/local/bin/wg-quick"@,
        "/opt/homebrew/bin/wg-quick"@,
        "/sbin/wg-quick"@,
        "/usr/sbin/wg-quick"@,
    ]
}

/// Where `wg` may be installed, in the order searched.
pub open spec fn wg_paths_spec() -> Seq<Seq<char>> {
    seq!["/usr/bin/wg"@, "/usr/local/bin/wg"@, "/opt/homebrew/bin/wg"@, "/sbin/wg"@, "/usr/sbin/wg"@]
}

/// The trusted locations of `wg-quick`.
pub fn wg_quick_paths() -> (r: Vec<String>)
    ensures
        strs(r@) == wg_quick_paths_spec(),
{
    let r = vec![
        String::from_str("/usr/bin/wg-quick"),
        String::from_str("/usr/local/bin/wg-quick"),
        String::from_str("/opt/homebrew/bin/wg-quick"),
        String::from_str("/sbin/wg-quick"),
        String::from_str("/usr/sbin/wg-quick"),
    ];
    assert(strs(r@) =~= wg_quick_paths_spec());
    r
}

/// The trusted locations of `wg`.
pub fn wg_paths() -> (r: Vec<String>)
    ensures
        strs(r@) == wg_paths_spec(),
{
    let r = vec![
        String::from_str("/usr/bin/wg"),
        String::from_str("/usr/local/bin/wg"),
        String::from_str("/opt/homebrew/bin/wg"),
        String::from_str("/sbin/wg"),
        String::from_str("/usr/sbin/wg"),
    ];
    assert(strs(r@) =~= wg_paths_spec());
    r
}

/// No trusted location holds the program.
#[derive(Debug, Clone, Copy, PartialEq, Eq)]
pub struct BinNotFound;

/// The first of `candidates` that `present` marks as an existing file.
pub fn find_bin(candidates: &Vec<String>, present: &Vec<bool>) -> (r: Result<String, BinNotFound>)
    ensures
        match r {
            Ok(p) => any_true(present@, candidates@.len() as int) && p@ == candidates@[first_true(
                present@,
                candidates@.len() as int,
            )]@,
            Err(_) => !any_true(present@, candidates@.len() as int),
        },
{
    match first_set(present, candidates.len()) {
        Some(i) => Ok(candidates[i].clone()),
        None => Err(BinNotFound),
    }
}

/// `wg-quick` among its trusted locations; `present[i]` tells whether the i-th exists.
pub fn wg_quick(present: &Vec<bool>) -> (r: Result<String, BinNotFound>)
    ensures
        match r {
            Ok(p) => any_true(present@, 5) && p@ == wg_quick_paths_spec()[first_true(present@, 5)],
            Err(_) => !any_true(present@, 5),
        },
{
    let c = wg_quick_paths();
    assert(c@.len() == 5) by {
        assert(strs(c@).len() == 5);
    }
    let r = find_bin(&c, present);
    proof {
        if r is Ok {
            assert(c@[first_true(present@, 5)]@ == strs(c@)[first_true(present@, 5)]);
        }
    }
    r
}

/// `wg` among its trusted locations; `present[i]` tells whether the i-th exists.
pub fn wg(present: &Vec<bool>) -> (r: Result<String, BinNotFound>)
    ensures
        match r {
            Ok(p) => any_true(present@, 5) && p@ == wg_paths_spec()[first_true(present@, 5)],
            Err(_) => !any_true(present@, 5),
        },
{
    let c = wg_paths();
    assert(c@.len() == 5) by {
        assert(strs(c@).len() == 5);
    }
    let r = find_bin(&c, present);
    proof {
        if r is Ok {
            assert(c@[first_true(present@, 5)]@ == strs(c@)[first_true(present@, 5)]);
        }
    }
    r
}

/// A `wg-quick <action> <target>` invocation.
#[derive(Debug, Clone)]
pub struct QuickCommand {
    pub action: String,
    pub target: String,
}

/// `wg-quick up <conf path>`.
pub fn up(p: &ResolvedProfile) -> (c: QuickCommand)
    ensures
        c.action@ == "up"@,
        c.target@ == p.conf_path@,
{
    QuickCommand { action: String::from_str("up"), target: p.conf_path.clone() }
}

/// `wg-quick down <conf path>`.
pub fn down(p: &ResolvedProfile) -> (c: QuickCommand)
    ensures
        c.action@ == "down"@,
        c.target@ == p.conf_path@,
{
    QuickCommand { action: String::from_str("down"), target: p.conf_path.clone() }
}

/// `wg-quick down <name>` for an interface, refused unless `name` is a valid profile name.
pub fn down_iface(name: &str) -> (r: Result<QuickCommand, NameError>)
    ensures
        match name_error(name@) {
            Some(e) => r matches Err(x) && x == e,
            None => r matches Ok(c) && c.action@ == "down"@ && c.target@ == name@,
        },
{
    match validate_name(name) {
        Err(e) => Err(e),
        Ok(()) => Ok(QuickCommand { action: String::from_str("down"), target: String::from_str(name) }),
    }
}

} // verus!

verus! {

/// One kernel interface name mapped to the configuration that created it.
#[derive(Debug, Clone)]
pub struct NameEntry {
    pub kernel: String,
    pub config: String,
}

/// Kernel interface name (e.g. `utun6`) to configuration name (e.g. `ua`).
#[derive(Debug)]
pub struct NameMap {
    entries: Vec<NameEntry>,
}

pub open spec fn kernels_of(e: Seq<NameEntry>) -> Seq<Seq<char>> {
    e.map_values(|x: NameEntry| x.kernel@)
}

pub open spec fn distinct_keys(k: Seq<Seq<char>>) -> bool {
    forall|i: int, j: int| 0 <= i < k.len() && 0 <= j < k.len() && i != j ==> k[i] != k[j]
}

impl NameMap {
    #[verifier::type_invariant]
    closed spec fn keys_distinct(self) -> bool {
        distinct_keys(kernels_of(self.entries@))
    }

    /// The mapping as a map.
    pub closed spec fn as_map(&self) -> Map<Seq<char>, Seq<char>> {
        Map::new(
            |k: Seq<char>| kernels_of(self.entries@).contains(k),
            |k: Seq<char>| self.entries@[first_key(kernels_of(self.entries@), k)].config@,
        )
    }

    /// The empty mapping.
    pub fn new() -> (m: NameMap)
        ensures
            m.as_map() == Map::<Seq<char>, Seq<char>>::empty(),
    {
        let m = NameMap { entries: Vec::new() };
        assert(m.as_map() =~= Map::<Seq<char>, Seq<char>>::empty());
        m
    }

    /// The position of kernel name `k`, if mapped.
    fn position(&self, k: &String) -> (r: Option<usize>)
        ensures
            match r {
                Some(i) => i < self.entries@.len() && i == first_key(kernels_of(self.entries@), k@),
                None => !kernels_of(self.entries@).contains(k@),
            },
    {
        let ghost keys = kernels_of(self.entries@);
        let mut i: usize = 0;
        assert(keys.take(0) =~= Seq::<Seq<char>>::empty());
        while i < self.entries.len()
            invariant
                keys == kernels_of(self.entries@),
                i <= self.entries@.len(),
                first_key(keys.take(i as int), k@) == -1,
            decreases self.entries@.len() - i,
        {
            proof {
                lemma_first_key_prefix(keys, k@, i as int);
            }
            if self.entries[i].kernel == *k {
                proof {
                    lemma_first_key_prefix(keys, k@, i + 1);
                }
                return Some(i);
            }
            i = i + 1;
        }
        assert(keys.take(i as int) =~= keys);
        proof {
            lemma_first_key_range(keys, k@);
        }
        None
    }

    /// The configuration that kernel interface `k` belongs to, if known.
    pub fn get(&self, k: &String) -> (r: Option<&String>)
        ensures
            match r {
                Some(v) => self.as_map().contains_key(k@) && v@ == self.as_map()[k@],
                None => !self.as_map().contains_key(k@),
            },
    {
        match self.position(k) {
            Some(i) => {
                proof {
                    lemma_first_key_range(kernels_of(self.entries@), k@);
                }
                Some(&self.entries[i].config)
            },
            None => None,
        }
    }

    /// Maps kernel interface `k` to configuration `v`, replacing an earlier mapping of `k`.
    pub fn insert(&mut self, k: String, v: String)
        ensures
            final(self).as_map() == old(self).as_map().insert(k@, v@),
    {
        proof {
            use_type_invariant(&*self);
        }
        let ghost old_map = self.as_map();
        let ghost kv = k@;
        let ghost vv = v@;
        let ghost keys = kernels_of(self.entries@);
        proof {
            lemma_first_key_range(keys, kv);
        }
        match self.position(&k) {
            Some(i) => {
                let mut entries = Vec::new();
                std::mem::swap(&mut entries, &mut self.entries);
                let ghost before = entries@;
                entries.set(i, NameEntry { kernel: k, config: v });
                proof {
                    assert(kernels_of(entries@) =~= keys);
                    assert forall|key: Seq<char>| keys.contains(key) implies first_key(keys, key)
                        == first_key(kernels_of(before), key) by {}
                }
                self.entries = entries;
                proof {
                    assert forall|key: Seq<char>| #[trigger] keys.contains(key) && key != kv
                        implies first_key(keys, key) != i by {
                        lemma_first_key_range(keys, key);
                    }
                    assert(kernels_of(self.entries@) == keys);
                    assert forall|key: Seq<char>| self.as_map().contains_key(key) implies self.as_map()[key]
                        == old_map.insert(kv, vv)[key] by {
                        lemma_first_key_range(keys, key);
                        if key != kv {
                            assert(self.entries@[first_key(keys, key)] == before[first_key(keys, key)]);
                        }
                    }
                    assert(keys.contains(kv)) by {
                        assert(keys[i as int] == kv);
                    }
                }
                assert(self.as_map() =~= old_map.insert(kv, vv));
            },
            None => {
                let mut entries = Vec::new();
                std::mem::swap(&mut entries, &mut self.entries);
                let ghost before = entries@;
                entries.push(NameEntry { kernel: k, config: v });
                let ghost keys2 = kernels_of(entries@);
                proof {
                    assert(keys2 =~= keys.push(kv));
                    assert(distinct_keys(keys2)) by {
                        assert forall|a: int, b: int|
                            0 <= a < keys2.len() && 0 <= b < keys2.len() && a != b implies keys2[a]
                            != keys2[b] by {
                            if a == keys.len() {
                                assert(keys2[b] == keys[b]);
                                if keys[b] == kv {
                                    assert(keys.contains(kv));
                                }
                            } else if b == keys.len() {
                                assert(keys2[a] == keys[a]);
                                if keys[a] == kv {
                                    assert(keys.contains(kv));
                                }
                            } else {
                                assert(keys2[a] == keys[a] && keys2[b] == keys[b]);
                            }
                        }
                    }
                    assert forall|key: Seq<char>| keys.contains(key) implies first_key(keys2, key)
                        == first_key(keys, key) by {
                        assert(keys2.take(keys.len() as int) =~= keys);
                        lemma_first_key_range(keys, key);
                        lemma_first_key_prefix(keys2, key, keys.len() as int);
                    }
                    assert(first_key(keys2, kv) == keys.len()) by {
                        assert(keys2.take(keys.len() as int) =~= keys);
                        lemma_first_key_prefix(keys2, kv, keys.len() as int);
                        assert(keys2.take(keys.len() as int + 1) =~= keys2);
                    }
                }
                self.entries = entries;
                proof {
                    assert(kernels_of(self.entries@) == keys2);
                    assert forall|key: Seq<char>| #[trigger] keys2.contains(key) <==> (keys.contains(key)
                        || key == kv) by {
                        if keys2.contains(key) {
                            let j = choose|j: int| 0 <= j < keys2.len() && keys2[j] == key;
                            if j < keys.len() {
                                assert(keys[j] == key);
                            }
                        }
                        if keys.contains(key) {
                            let j = choose|j: int| 0 <= j < keys.len() && keys[j] == key;
                            assert(keys2[j] == key);
                        }
                        if key == kv {
                            assert(keys2[keys.len() as int] == kv);
                        }
                    }
                    assert forall|key: Seq<char>| self.as_map().contains_key(key) implies self.as_map()[key]
                        == old_map.insert(kv, vv)[key] by {
                        if key != kv {
                            lemma_first_key_range(keys, key);
                            assert(self.entries@[first_key(keys, key)] == before[first_key(keys, key)]);
                        }
                    }
                }
                assert(self.as_map() =~= old_map.insert(kv, vv));
            },
        }
    }

    /// Whether nothing is mapped.
    pub fn is_empty(&self) -> (b: bool)
        ensures
            b == (self.as_map() == Map::<Seq<char>, Seq<char>>::empty()),
    {
        if self.entries.len() == 0 {
            assert(self.as_map() =~= Map::<Seq<char>, Seq<char>>::empty());
            true
        } else {
            assert(self.as_map().contains_key(self.entries@[0].kernel@)) by {
                assert(kernels_of(self.entries@)[0] == self.entries@[0].kernel@);
            }
            false
        }
    }

    /// The configuration names mapped to, sorted, each once.
    pub fn config_names(&self) -> (r: Vec<String>)
        ensures
            strictly_sorted(strs(r@)),
            strs(r@).to_set() == map_values_set(self.as_map()),
    {
        proof {
            use_type_invariant(self);
        }
        let ghost keys = kernels_of(self.entries@);
        let ghost cfgs = self.entries@.map_values(|x: NameEntry| x.config@);
        let mut out: Vec<String> = Vec::new();
        let mut i: usize = 0;
        assert(strs(out@).to_set() =~= cfgs.take(0).to_set());
        while i < self.entries.len()
            invariant
                keys == kernels_of(self.entries@),
                cfgs == self.entries@.map_values(|x: NameEntry| x.config@),
                i <= self.entries@.len(),
                strictly_sorted(strs(out@)),
                strs(out@).to_set() == cfgs.take(i as int).to_set(),
            decreases self.entries@.len() - i,
        {
            insert_sorted(&mut out, self.entries[i].config.clone());
            assert(cfgs.take(i + 1) =~= cfgs.take(i as int).push(cfgs[i as int]));
            proof {
                cfgs.take(i as int).lemma_push_to_set_commute(cfgs[i as int]);
            }
            i = i + 1;
        }
        assert(cfgs.take(i as int) =~= cfgs);
        assert(cfgs.to_set() =~= map_values_set(self.as_map())) by {
            assert forall|v: Seq<char>| cfgs.to_set().contains(v) implies map_values_set(
                self.as_map(),
            ).contains(v) by {
                let j = choose|j: int| 0 <= j < cfgs.len() && cfgs[j] == v;
                let key = keys[j];
                lemma_first_key_range(keys, key);
                assert(keys.contains(key));
                let f = first_key(keys, key);
                if f != j {
                    assert(keys[f] == keys[j]);
                }
                assert(self.as_map().contains_key(key) && self.as_map()[key] == v);
            }
            assert forall|v: Seq<char>| map_values_set(self.as_map()).contains(v) implies cfgs.to_set().contains(
                v,
            ) by {
                let key = choose|key: Seq<char>| self.as_map().contains_key(key) && self.as_map()[key] == v;
                lemma_first_key_range(keys, key);
                let f = first_key(keys, key);
                assert(cfgs[f] == v);
            }
        }
        out
    }
}

/// The values a map maps to.
pub open spec fn map_values_set(m: Map<Seq<char>, Seq<char>>) -> Set<Seq<char>> {
    Set::new(|v: Seq<char>| exists|k: Seq<char>| m.contains_key(k) && m[k] == v)
}

} // verus!

verus! {

pub open spec fn name_ext() -> Seq<char> {
    seq!['.', 'n', 'a', 'm', 'e']
}

/// The configuration a `<config>.name` entry of wg-quick's run directory stands for:
/// its stem, when the extension is `name` and the stem is a valid profile name.
pub open spec fn name_file_config(f: Seq<char>) -> Option<Seq<char>> {
    if f.len() > 5 && f.skip(f.len() - 5) == name_ext() && valid_name(f.take(f.len() - 5)) {
        Some(f.take(f.len() - 5))
    } else {
        None
    }
}

/// The configuration that the run-directory entry `file_name` stands for, if any.
pub fn name_file_config_of(file_name: &str) -> (r: Option<String>)
    ensures
        crate::profile::opt_view(r) == name_file_config(file_name@),
{
    let cs = chars_of(file_name);
    let n = cs.len();
    if n > 5 && cs[n - 5] == '.' && cs[n - 4] == 'n' && cs[n - 3] == 'a' && cs[n - 2] == 'm'
        && cs[n - 1] == 'e' {
        assert(cs@.skip(n - 5) =~= name_ext());
        let stem = string_from_chars(slice_prefix(cs.as_slice(), n - 5).as_slice());
        if validate_name(stem.as_str()).is_ok() {
            return Some(stem);
        }
        return None;
    }
    assert(!(cs@.len() > 5 && cs@.skip(cs@.len() - 5) == name_ext())) by {
        if cs@.len() > 5 && cs@.skip(cs@.len() - 5) == name_ext() {
            assert(cs@.skip(n - 5)[0] == '.');
            assert(cs@.skip(n - 5)[1] == 'n');
            assert(cs@.skip(n - 5)[2] == 'a');
            assert(cs@.skip(n - 5)[3] == 'm');
            assert(cs@.skip(n - 5)[4] == 'e');
        }
    }
    None
}

/// An entry of wg-quick's run directory: its file name and, when it was read, its text.
#[derive(Debug, Clone)]
pub struct RunEntry {
    pub file_name: String,
    pub content: Option<String>,
}

pub open spec fn run_entries_view(e: Seq<RunEntry>) -> Seq<(Seq<char>, Option<Seq<char>>)> {
    e.map_values(|x: RunEntry| (x.file_name@, crate::profile::opt_view(x.content)))
}

/// What one run-directory entry adds to the map: its trimmed text, when not empty,
/// names the kernel interface of its configuration.
pub open spec fn name_record(f: Seq<char>, content: Option<Seq<char>>) -> Option<(Seq<char>, Seq<char>)> {
    match name_file_config(f) {
        Some(cfg) => match content {
            Some(c) => if trim(c).len() > 0 {
                Some((trim(c), cfg))
            } else {
                None
            },
            None => None,
        },
        None => None,
    }
}

/// The map that the run-directory entries, taken in order, build; a later entry for
/// the same kernel interface replaces an earlier one.
pub open spec fn name_map_of(es: Seq<(Seq<char>, Option<Seq<char>>)>) -> Map<Seq<char>, Seq<char>>
    decreases es.len(),
{
    if es.len() == 0 {
        Map::empty()
    } else {
        let m = name_map_of(es.drop_last());
        match name_record(es.last().0, es.last().1) {
            Some(kv) => m.insert(kv.0, kv.1),
            None => m,
        }
    }
}

/// Reads wg-quick's `<config>.name` files (macOS): kernel interface to configuration.
/// `entries` are the run directory's entries in the order listed.
pub fn name_map(entries: &Vec<RunEntry>) -> (m: NameMap)
    ensures
        m.as_map() == name_map_of(run_entries_view(entries@)),
{
    let ghost es = run_entries_view(entries@);
    let mut m = NameMap::new();
    let mut i: usize = 0;
    assert(es.take(0) =~= Seq::<(Seq<char>, Option<Seq<char>>)>::empty());
    while i < entries.len()
        invariant
            es == run_entries_view(entries@),
            i <= entries@.len(),
            m.as_map() == name_map_of(es.take(i as int)),
        decreases entries@.len() - i,
    {
        let e = &entries[i];
        proof {
            assert(es.take(i + 1).drop_last() =~= es.take(i as int));
            assert(es.take(i + 1).last() == es[i as int]);
        }
        match name_file_config_of(e.file_name.as_str()) {
            Some(cfg) => match &e.content {
                Some(c) => {
                    let cs = chars_of(c.as_str());
                    let t = trimmed(cs.as_slice());
                    if t.len() > 0 {
                        m.insert(string_from_chars(t.as_slice()), cfg);
                    }
                },
                None => {},
            },
            None => {},
        }
        i = i + 1;
    }
    assert(es.take(i as int) =~= es);
    m
}

/// The active configuration names when the run directory maps any (sorted, each
/// once); `None` when it maps none, and the kernel must be asked instead.
pub fn active_config_names(map: &NameMap) -> (r: Option<Vec<String>>)
    ensures
        match r {
            Some(v) => map.as_map() != Map::<Seq<char>, Seq<char>>::empty() && strictly_sorted(strs(v@))
                && strs(v@).to_set() == map_values_set(map.as_map()),
            None => map.as_map() == Map::<Seq<char>, Seq<char>>::empty(),
        },
{
    if map.is_empty() {
        None
    } else {
        Some(map.config_names())
    }
}

/// `wg show interfaces` failed for a reason other than missing permission.
#[derive(Debug, Clone)]
pub struct ShowFailed {
    /// Its trimmed standard error.
    pub stderr: String,
}

pub open spec fn permission_word() -> Seq<char> {
    seq!['p', 'e', 'r', 'm', 'i', 's', 's', 'i', 'o', 'n']
}

pub open spec fn not_permitted_words() -> Seq<char> {
    seq![
        'o', 'p', 'e', 'r', 'a', 't', 'i', 'o', 'n', ' ', 'n', 'o', 't', ' ', 'p', 'e', 'r', 'm',
        'i', 't', 't', 'e', 'd',
    ]
}

/// Whether a failure's standard error tells of missing permission.
pub open spec fn denied(stderr: Seq<char>) -> bool {
    let lower = lowercase(trim(stderr));
    contains_seq(lower, permission_word()) || contains_seq(lower, not_permitted_words())
}

/// The kernel's WireGuard interfaces from `wg show interfaces`: its whitespace-separated
/// output when it succeeded; none when it failed for want of permission; else the failure.
pub fn kernel_interfaces(success: bool, stdout: &str, stderr: &str) -> (r: Result<Vec<String>, ShowFailed>)
    ensures
        success ==> (r matches Ok(v) && strs(v@) == words(stdout@)),
        !success && denied(stderr@) ==> (r matches Ok(v) && v@.len() == 0),
        !success && !denied(stderr@) ==> (r matches Err(e) && e.stderr@ == trim(stderr@)),
{
    if success {
        let cs = chars_of(stdout);
        let ws = split_words(cs.as_slice());
        let mut out: Vec<String> = Vec::new();
        let mut i: usize = 0;
        while i < ws.len()
            invariant
                i <= ws@.len(),
                strs(out@) == rows(ws@).take(i as int),
            decreases ws@.len() - i,
        {
            let w = string_from_chars(ws[i].as_slice());
            assert(w@ == rows(ws@)[i as int]);
            let ghost prev = strs(out@);
            out.push(w);
            assert(strs(out@) =~= prev.push(rows(ws@)[i as int]));
            assert(rows(ws@).take(i + 1) =~= rows(ws@).take(i as int).push(rows(ws@)[i as int]));
            i = i + 1;
        }
        assert(rows(ws@).take(i as int) =~= rows(ws@));
        return Ok(out);
    }
    let ec = chars_of(stderr);
    let t = string_from_chars(trimmed(ec.as_slice()).as_slice());
    let lower = to_lowercase(t.as_str());
    let lc = chars_of(lower.as_str());
    let w1 = ['p', 'e', 'r', 'm', 'i', 's', 's', 'i', 'o', 'n'];
    let w2 = [
        'o', 'p', 'e', 'r', 'a', 't', 'i', 'o', 'n', ' ', 'n', 'o', 't', ' ', 'p', 'e', 'r', 'm',
        'i', 't', 't', 'e', 'd',
    ];
    assert(w1@ =~= permission_word());
    assert(w2@ =~= not_permitted_words());
    if contains_chars(lc.as_slice(), &w1) || contains_chars(lc.as_slice(), &w2) {
        return Ok(Vec::new());
    }
    Err(ShowFailed { stderr: t })
}

/// The fixed search directories that `wg-quick` runs with, after its own directory
/// and before the inherited `PATH`.
pub open spec fn child_path_dirs_spec() -> Seq<Seq<char>> {
    seq![
        "/opt/homebrew/bin"@,
        "/opt/homebrew/sbin"@,
        "/usr/local/bin"@,
        "/usr/local/sbin"@,
        "/usr/bin"@,
        "/bin"@,
        "/usr/sbin"@,
        "/sbin"@,
    ]
}

/// The fixed search directories of `wg-quick`'s `PATH`.
pub fn child_path_dirs() -> (r: Vec<String>)
    ensures
        strs(r@) == child_path_dirs_spec(),
{
    let r = vec![
        String::from_str("/opt/homebrew/bin"),
        String::from_str("/opt/homebrew/sbin"),
        String::from_str("/usr/local/bin"),
        String::from_str("/usr/local/sbin"),
        String::from_str("/usr/bin"),
        String::from_str("/bin"),
        String::from_str("/usr/sbin"),
        String::from_str("/sbin"),
    ];
    assert(strs(r@) =~= child_path_dirs_spec());
    r
}

/// The bytes of each entry.
pub open spec fn byte_rows(v: Seq<Vec<u8>>) -> Seq<Seq<u8>> {
    v.map_values(|x: Vec<u8>| x@)
}

/// The fixed search directories as bytes (UTF-8).
pub open spec fn child_path_dirs_bytes() -> Seq<Seq<u8>> {
    child_path_dirs_spec().map_values(|d: Seq<char>| vstd::utf8::encode_utf8(d))
}

/// The directory of the binary, when it has one.
pub open spec fn opt_bytes(p: Option<Vec<u8>>) -> Seq<Seq<u8>> {
    match p {
        Some(v) => seq![v@],
        None => Seq::empty(),
    }
}

/// The entries of `wg-quick`'s `PATH`, in order, before repeats drop out: the binary's
/// own directory (when it has one), the fixed directories, then the inherited `PATH`.
pub fn child_path_parts(parent: Option<Vec<u8>>, inherited: Vec<Vec<u8>>) -> (r: Vec<Vec<u8>>)
    ensures
        byte_rows(r@) == opt_bytes(parent) + child_path_dirs_bytes() + byte_rows(inherited@),
{
    let ghost pv = opt_bytes(parent);
    let mut out: Vec<Vec<u8>> = Vec::new();
    match parent {
        Some(p) => {
            out.push(p);
        },
        None => {},
    }
    assert(byte_rows(out@) =~= pv);
    let dirs = child_path_dirs();
    let ghost fixed = child_path_dirs_bytes();
    let mut i: usize = 0;
    while i < dirs.len()
        invariant
            strs(dirs@) == child_path_dirs_spec(),
            fixed == child_path_dirs_bytes(),
            i <= dirs@.len(),
            byte_rows(out@) == pv + fixed.take(i as int),
        decreases dirs@.len() - i,
    {
        let b = vstd::slice::slice_to_vec(dirs[i].as_str().as_bytes());
        assert(dirs@[i as int]@ == child_path_dirs_spec()[i as int]);
        assert(b@ == fixed[i as int]);
        let ghost before = byte_rows(out@);
        out.push(b);
        assert(byte_rows(out@) =~= before.push(b@));
        assert(fixed.take(i + 1) =~= fixed.take(i as int).push(fixed[i as int]));
        i = i + 1;
    }
    assert(fixed.take(i as int) =~= fixed);
    let ghost mid = byte_rows(out@);
    let mut rest = inherited;
    let ghost rv = byte_rows(rest@);
    out.append(&mut rest);
    assert(byte_rows(out@) =~= mid + rv);
    out
}

/// The entries marked to keep, in order.
pub open spec fn kept(s: Seq<Seq<u8>>, keep: Seq<bool>) -> Seq<Seq<u8>>
    decreases s.len(),
{
    if s.len() == 0 {
        Seq::empty()
    } else {
        let r = kept(s.drop_last(), keep);
        if s.len() - 1 < keep.len() && keep[s.len() - 1] {
            r.push(s.last())
        } else {
            r
        }
    }
}

/// The entries of `parts` whose mark in `keep` is set, in order; an entry with no
/// mark is dropped.
pub fn kept_entries(parts: Vec<Vec<u8>>, keep: &Vec<bool>) -> (r: Vec<Vec<u8>>)
    ensures
        byte_rows(r@) == kept(byte_rows(parts@), keep@),
{
    let ghost pv = byte_rows(parts@);
    let mut out: Vec<Vec<u8>> = Vec::new();
    let mut i: usize = 0;
    assert(pv.take(0) =~= Seq::<Seq<u8>>::empty());
    while i < parts.len()
        invariant
            pv == byte_rows(parts@),
            i <= parts@.len(),
            byte_rows(out@) == kept(pv.take(i as int), keep@),
        decreases parts@.len() - i,
    {
        assert(pv.take(i + 1).drop_last() =~= pv.take(i as int));
        assert(pv.take(i + 1).last() == pv[i as int]);
        if i < keep.len() && keep[i] {
            let b = vstd::slice::slice_to_vec(parts[i].as_slice());
            let ghost before = byte_rows(out@);
            out.push(b);
            assert(byte_rows(out@) =~= before.push(b@));
        }
        i = i + 1;
    }
    assert(pv.take(i as int) =~= pv);
    out
}

/// Which entries of a search path to keep: the first of each key (the path's
/// normalized bytes), so that later duplicates drop out and order stays.
pub fn first_occurrences(keys: &Vec<Vec<u8>>) -> (keep: Vec<bool>)
    ensures
        keep@.len() == keys@.len(),
        forall|i: int|
            0 <= i < keys@.len() ==> (#[trigger] keep@[i] <==> forall|j: int|
                0 <= j < i ==> keys@[j]@ != keys@[i]@),
{
    let mut keep: Vec<bool> = Vec::new();
    let mut i: usize = 0;
    while i < keys.len()
        invariant
            i <= keys@.len(),
            keep@.len() == i,
            forall|a: int|
                0 <= a < i ==> (#[trigger] keep@[a] <==> forall|j: int|
                    0 <= j < a ==> keys@[j]@ != keys@[a]@),
        decreases keys@.len() - i,
    {
        let seen = seen_before(keys, i);
        keep.push(!seen);
        i = i + 1;
    }
    keep
}

/// Whether the key at `i` occurs before it.
fn seen_before(keys: &Vec<Vec<u8>>, i: usize) -> (r: bool)
    requires
        i < keys@.len(),
    ensures
        r == exists|j: int| 0 <= j < i && keys@[j]@ == keys@[i as int]@,
{
    let mut j: usize = 0;
    while j < i
        invariant
            i < keys@.len(),
            j <= i,
            forall|b: int| 0 <= b < j ==> keys@[b]@ != keys@[i as int]@,
        decreases i - j,
    {
        if bytes_eq(&keys[j], &keys[i]) {
            return true;
        }
        j = j + 1;
    }
    false
}

fn bytes_eq(a: &Vec<u8>, b: &Vec<u8>) -> (r: bool)
    ensures
        r == (a@ == b@),
{
    if a.len() != b.len() {
        return false;
    }
    let mut i: usize = 0;
    while i < a.len()
        invariant
            a@.len() == b@.len(),
            i <= a@.len(),
            forall|j: int| 0 <= j < i ==> a@[j] == b@[j],
        decreases a@.len() - i,
    {
        if a[i] != b[i] {
            return false;
        }
        i = i + 1;
    }
    assert(a@ =~= b@);
    true
}

} // verus!

verus! {

/// Keeping the first of each key leaves each key exactly once: the kept entries are
/// distinct and every entry's key is kept at or before it.
pub proof fn lemma_first_occurrences_dedup(keys: Seq<Seq<u8>>, keep: Seq<bool>)
    requires
        keep.len() == keys.len(),
        forall|i: int|
            0 <= i < keys.len() ==> (#[trigger] keep[i] <==> forall|j: int| 0 <= j < i ==> keys[j] != keys[i]),
    ensures
        forall|i: int, j: int|
            0 <= i < j < keys.len() && keep[i] && keep[j] ==> #[trigger] keys[i] != #[trigger] keys[j],
        forall|i: int| 0 <= i < keys.len() ==> #[trigger] kept_at_or_before(keys, keep, i),
{
    assert forall|i: int| 0 <= i < keys.len() implies #[trigger] kept_at_or_before(keys, keep, i) by {
        let j = lemma_first_occurrence_kept(keys, keep, i, i);
        assert(0 <= j <= i && keep[j] && keys[j] == keys[i]);
    }
}

/// Some entry at or before `i` with the same key is kept.
pub open spec fn kept_at_or_before(keys: Seq<Seq<u8>>, keep: Seq<bool>, i: int) -> bool {
    exists|j: int| 0 <= j <= i && #[trigger] keep[j] && keys[j] == keys[i]
}

proof fn lemma_first_occurrence_kept(keys: Seq<Seq<u8>>, keep: Seq<bool>, i: int, m: int) -> (j: int)
    requires
        keep.len() == keys.len(),
        forall|a: int|
            0 <= a < keys.len() ==> (#[trigger] keep[a] <==> forall|j: int| 0 <= j < a ==> keys[j] != keys[a]),
        0 <= m <= i < keys.len(),
        keys[m] == keys[i],
    ensures
        0 <= j <= m,
        keep[j],
        keys[j] == keys[i],
    decreases m,
{
    if keep[m] {
        m
    } else {
        let j = choose|j: int| 0 <= j < m && keys[j] == keys[m];
        lemma_first_occurrence_kept(keys, keep, i, j)
    }
}

} // verus!
