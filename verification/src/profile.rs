use vstd::prelude::*;
use vstd::string::StringSliceAdditionalSpecFns;
use crate::choice::{any_true, first_set, first_true};
use crate::sorted::{insert_sorted, strictly_sorted, strs};
use crate::text::{chars_of, push_all, slice_prefix, string_from_chars};

verus! {

/// Why a profile name was refused.
#[derive(Debug, Clone, Copy, PartialEq, Eq)]
pub enum NameError {
    /// The name is empty.
    Empty,
    /// The name is longer than fifteen bytes (an interface name's limit).
    TooLong,
    /// The name is `.` or `..`.
    Reserved,
    /// The name holds this character, the first one outside `[A-Za-z0-9_=+.-]`.
    BadChar(char),
}

/// Characters that a profile name may hold: ASCII letters and digits and `_ = + . -`.
pub open spec fn name_char_ok(c: char) -> bool {
    let u = c as u32;
    ||| 48 <= u <= 57
    ||| 65 <= u <= 90
    ||| 97 <= u <= 122
    ||| c == '_' || c == '=' || c == '+' || c == '.' || c == '-'
}

pub open spec fn all_name_chars(s: Seq<char>) -> bool {
    forall|i: int| 0 <= i < s.len() ==> name_char_ok(#[trigger] s[i])
}

/// The position of the first character that a name may not hold.
pub open spec fn first_bad_char(s: Seq<char>) -> int {
    choose|i: int|
        0 <= i < s.len() && !name_char_ok(s[i]) && forall|j: int|
            0 <= j < i ==> name_char_ok(#[trigger] s[j])
}

/// The length of `s` in UTF-8 bytes.
pub open spec fn utf8_len(s: Seq<char>) -> nat {
    vstd::utf8::encode_utf8(s).len()
}

/// What is wrong with a profile name, checked in this order; `None` when it is valid.
pub open spec fn name_error(s: Seq<char>) -> Option<NameError> {
    if s.len() == 0 {
        Some(NameError::Empty)
    } else if utf8_len(s) > 15 {
        Some(NameError::TooLong)
    } else if s == seq!['.'] || s == seq!['.', '.'] {
        Some(NameError::Reserved)
    } else if !all_name_chars(s) {
        Some(NameError::BadChar(s[first_bad_char(s)]))
    } else {
        None
    }
}

pub open spec fn valid_name(s: Seq<char>) -> bool {
    name_error(s) is None
}

pub fn is_name_char(c: char) -> (b: bool)
    ensures
        b == name_char_ok(c),
{
    let u = c as u32;
    (48 <= u && u <= 57) || (65 <= u && u <= 90) || (97 <= u && u <= 122) || c == '_' || c == '='
        || c == '+' || c == '.' || c == '-'
}

/// Checks that `name` may name a WireGuard profile: one to fifteen bytes of
/// `[A-Za-z0-9_=+.-]`, and neither `.` nor `..`.
pub fn validate_name(name: &str) -> (r: Result<(), NameError>)
    ensures
        match name_error(name@) {
            Some(e) => r == Err::<(), NameError>(e),
            None => r is Ok,
        },
{
    let cs = chars_of(name);
    if cs.len() == 0 {
        return Err(NameError::Empty);
    }
    let bytes = name.as_bytes();
    let nbytes = bytes.len();
    assert(nbytes == utf8_len(name@));
    if nbytes > 15 {
        return Err(NameError::TooLong);
    }
    if (cs.len() == 1 && cs[0] == '.') || (cs.len() == 2 && cs[0] == '.' && cs[1] == '.') {
        proof {
            if cs@.len() == 1 {
                assert(cs@ =~= seq!['.']);
            } else {
                assert(cs@ =~= seq!['.', '.']);
            }
        }
        return Err(NameError::Reserved);
    }
    assert(cs@ != seq!['.']) by {
        if cs@ == seq!['.'] {
            assert(cs@.len() == 1 && cs@[0] == '.');
        }
    }
    assert(cs@ != seq!['.', '.']) by {
        if cs@ == seq!['.', '.'] {
            assert(cs@.len() == 2 && cs@[0] == '.' && cs@[1] == '.');
        }
    }
    let mut i: usize = 0;
    while i < cs.len()
        invariant
            cs@ == name@,
            cs@.len() > 0,
            utf8_len(name@) <= 15,
            cs@ != seq!['.'],
            cs@ != seq!['.', '.'],
            i <= cs@.len(),
            forall|j: int| 0 <= j < i ==> name_char_ok(#[trigger] cs@[j]),
        decreases cs@.len() - i,
    {
        let c = cs[i];
        if !is_name_char(c) {
            let ghost k = first_bad_char(cs@);
            assert(0 <= i < cs@.len() && !name_char_ok(cs@[i as int]) && forall|j: int|
                0 <= j < i ==> name_char_ok(#[trigger] cs@[j]));
            assert(k == i) by {
                if k < i {
                    assert(name_char_ok(cs@[k]));
                } else if k > i {
                    assert(name_char_ok(cs@[i as int]));
                }
            }
            return Err(NameError::BadChar(c));
        }
        i = i + 1;
    }
    Ok(())
}

/// Every name of one to fifteen characters drawn from ASCII letters (either case),
/// digits and `_ = + . -`, other than `.` and `..`, is accepted.
pub proof fn lemma_plain_names_are_valid(s: Seq<char>)
    requires
        0 < s.len() <= 15,
        forall|i: int|
            0 <= i < s.len() ==> {
                let c = #[trigger] s[i];
                ||| 'a' <= c <= 'z'
                ||| 'A' <= c <= 'Z'
                ||| '0' <= c <= '9'
                ||| c == '_' || c == '=' || c == '+' || c == '.' || c == '-'
            },
        s != seq!['.'],
        s != seq!['.', '.'],
    ensures
        valid_name(s),
        name_error(s) is None,
{
    assert(vstd::utf8::is_ascii_chars(s)) by {
        assert forall|i: int| 0 <= i < s.len() implies '\0' <= #[trigger] s[i] <= '\u{7f}' by {
            let c = s[i];
            assert(('a' <= c <= 'z') || ('A' <= c <= 'Z') || ('0' <= c <= '9') || c == '_' || c == '='
                || c == '+' || c == '.' || c == '-');
        }
    }
    vstd::utf8::is_ascii_chars_encode_utf8(s);
    assert(all_name_chars(s)) by {
        assert forall|i: int| 0 <= i < s.len() implies name_char_ok(#[trigger] s[i]) by {
            let c = s[i];
            assert(('a' <= c <= 'z') || ('A' <= c <= 'Z') || ('0' <= c <= '9') || c == '_' || c == '='
                || c == '+' || c == '.' || c == '-');
        }
    }
}

/// A valid profile name is a plain file name: it holds no path separator and is
/// neither `.` nor `..`, so `<dir>/<name>.conf` names a file directly inside `<dir>`.
pub proof fn lemma_valid_name_is_plain(s: Seq<char>)
    requires
        valid_name(s),
    ensures
        s.len() > 0,
        forall|i: int| 0 <= i < s.len() ==> #[trigger] s[i] != '/' && s[i] != '\\',
        s != seq!['.'] && s != seq!['.', '.'],
{
    assert forall|i: int| 0 <= i < s.len() implies #[trigger] s[i] != '/' && s[i] != '\\' by {
        assert(name_char_ok(s[i]));
    }
}

/// A valid profile name holds nothing a shell would interpret: no whitespace, quote,
/// separator, glob, redirection, substitution or control character.
pub proof fn lemma_valid_name_has_no_shell_metacharacters(s: Seq<char>)
    requires
        valid_name(s),
    ensures
        forall|i: int|
            0 <= i < s.len() ==> {
                let c = #[trigger] s[i];
                &&& c != ' ' && c != '\t' && c != '\n'
                &&& c != ';' && c != '&' && c != '|' && c != '$' && c != '`'
                &&& c != '*' && c != '?' && c != '[' && c != ']'
                &&& c != '<' && c != '>' && c != '(' && c != ')'
                &&& c != '\'' && c != '"' && c != '\\' && c != ':' && c != '~' && c != '!'
                &&& c != '#'
            },
{
    assert forall|i: int| 0 <= i < s.len() implies {
        let c = #[trigger] s[i];
        &&& c != ' ' && c != '\t' && c != '\n'
        &&& c != ';' && c != '&' && c != '|' && c != '$' && c != '`'
        &&& c != '*' && c != '?' && c != '[' && c != ']'
        &&& c != '<' && c != '>' && c != '(' && c != ')'
        &&& c != '\'' && c != '"' && c != '\\' && c != ':' && c != '~' && c != '!'
        &&& c != '#'
    } by {
        assert(name_char_ok(s[i]));
    }
}

/// The directories searched for `<name>.conf`, in order.
pub open spec fn wg_dirs_spec() -> Seq<Seq<char>> {
    seq!["/etc/wireguard"@, "/usr/local/etc/wireguard"@, "/opt/homebrew/etc/wireguard"@]
}

/// The directories searched for `<name>.conf`, in order.
pub fn wg_dirs() -> (r: Vec<String>)
    ensures
        strs(r@) == wg_dirs_spec(),
{
    let r = vec![
        String::from_str("/etc/wireguard"),
        String::from_str("/usr/local/etc/wireguard"),
        String::from_str("/opt/homebrew/etc/wireguard"),
    ];
    assert(strs(r@) =~= wg_dirs_spec());
    r
}

pub open spec fn conf_ext() -> Seq<char> {
    seq!['.', 'c', 'o', 'n', 'f']
}

/// `Path::new(dir).join(format!("{name}.conf"))` for a directory without a trailing
/// separator and a valid name.
pub open spec fn conf_path_of(dir: Seq<char>, name: Seq<char>) -> Seq<char> {
    dir + seq!['/'] + name + conf_ext()
}

/// The path of profile `name`'s configuration file inside `dir`.
pub fn conf_path(dir: &str, name: &str) -> (r: String)
    ensures
        r@ == conf_path_of(dir@, name@),
{
    let mut v = chars_of(dir);
    v.push('/');
    let n = chars_of(name);
    push_all(&mut v, n.as_slice());
    let ext = ['.', 'c', 'o', 'n', 'f'];
    push_all(&mut v, &ext);
    assert(v@ =~= conf_path_of(dir@, name@));
    string_from_chars(v.as_slice())
}

/// A profile whose configuration file was found.
#[derive(Debug, Clone)]
pub struct ResolvedProfile {
    pub conf_path: String,
}

/// Why a profile could not be resolved.
#[derive(Debug, Clone, Copy, PartialEq, Eq)]
pub enum ProfileError {
    /// The name is not a valid profile name.
    Invalid(NameError),
    /// No searched directory holds `<name>.conf`.
    NotFound,
}

/// Resolves profile `name` to its configuration file. `present[i]` tells whether
/// `<wg_dirs()[i]>/<name>.conf` is a file; the first directory that has one wins.
pub fn resolve(name: &str, present: &Vec<bool>) -> (r: Result<ResolvedProfile, ProfileError>)
    ensures
        match name_error(name@) {
            Some(e) => r == Err::<ResolvedProfile, ProfileError>(ProfileError::Invalid(e)),
            None => if any_true(present@, 3) {
                r matches Ok(p) && p.conf_path@ == conf_path_of(
                    wg_dirs_spec()[first_true(present@, 3)],
                    name@,
                )
            } else {
                r == Err::<ResolvedProfile, ProfileError>(ProfileError::NotFound)
            },
        },
{
    if let Err(e) = validate_name(name) {
        return Err(ProfileError::Invalid(e));
    }
    let dirs = wg_dirs();
    assert(wg_dirs_spec().len() == 3);
    assert(dirs@.len() == 3);
    match first_set(present, 3) {
        Some(i) => {
            assert(dirs@[i as int]@ == wg_dirs_spec()[i as int]);
            Ok(ResolvedProfile { conf_path: conf_path(dirs[i].as_str(), name) })
        },
        None => Err(ProfileError::NotFound),
    }
}

/// The profile id that a directory entry named `f` stands for: its stem when its
/// extension is `conf` (`Path::file_stem` and `Path::extension`).
pub open spec fn conf_stem(f: Seq<char>) -> Option<Seq<char>> {
    if f.len() > 5 && f.skip(f.len() - 5) == conf_ext() {
        Some(f.take(f.len() - 5))
    } else {
        None
    }
}

/// The profile ids that the entries `names` stand for.
pub open spec fn conf_ids(names: Seq<Seq<char>>) -> Set<Seq<char>> {
    Set::new(
        |id: Seq<char>|
            exists|i: int|
                0 <= i < names.len() && #[trigger] conf_stem(names[i]) == Some(id) && valid_name(id),
    )
}

/// The stem of `f` when it ends in `.conf` and has something before it.
pub fn conf_stem_of(f: &str) -> (r: Option<String>)
    ensures
        opt_view(r) == conf_stem(f@),
{
    let cs = chars_of(f);
    let n = cs.len();
    if n > 5 && cs[n - 5] == '.' && cs[n - 4] == 'c' && cs[n - 3] == 'o' && cs[n - 2] == 'n'
        && cs[n - 1] == 'f' {
        assert(cs@.skip(n - 5) =~= conf_ext());
        let stem = slice_prefix(cs.as_slice(), n - 5);
        Some(string_from_chars(stem.as_slice()))
    } else {
        assert(!(cs@.len() > 5 && cs@.skip(cs@.len() - 5) == conf_ext())) by {
            if cs@.len() > 5 && cs@.skip(cs@.len() - 5) == conf_ext() {
                assert(cs@.skip(n - 5)[0] == '.');
                assert(cs@.skip(n - 5)[1] == 'c');
                assert(cs@.skip(n - 5)[2] == 'o');
                assert(cs@.skip(n - 5)[3] == 'n');
                assert(cs@.skip(n - 5)[4] == 'f');
            }
        }
        None
    }
}

pub open spec fn opt_view(o: Option<String>) -> Option<Seq<char>> {
    match o {
        Some(s) => Some(s@),
        None => None,
    }
}

/// The profile ids among the directory entries `names` (file names, the searched
/// directories' entries one after another): sorted, each once.
pub fn discover_ids(names: &Vec<String>) -> (r: Vec<String>)
    ensures
        strictly_sorted(strs(r@)),
        strs(r@).to_set() == conf_ids(strs(names@)),
{
    let ghost ns = strs(names@);
    let mut out: Vec<String> = Vec::new();
    let mut i: usize = 0;
    assert(strs(out@).to_set() =~= conf_ids(ns.take(0)));
    while i < names.len()
        invariant
            ns == strs(names@),
            i <= names@.len(),
            strictly_sorted(strs(out@)),
            strs(out@).to_set() == conf_ids(ns.take(i as int)),
        decreases names@.len() - i,
    {
        let ghost before = strs(out@).to_set();
        let stem = conf_stem_of(names[i].as_str());
        let ghost mut added = false;
        if let Some(id) = stem {
            if validate_name(id.as_str()).is_ok() {
                let ghost idv = id@;
                insert_sorted(&mut out, id);
                proof {
                    added = true;
                    assert(conf_ids(ns.take(i + 1)) =~= conf_ids(ns.take(i as int)).insert(idv)) by {
                        assert(ns.take(i + 1)[i as int] == ns[i as int]);
                        assert forall|x: Seq<char>| #[trigger] conf_ids(ns.take(i + 1)).contains(x)
                            implies conf_ids(ns.take(i as int)).insert(idv).contains(x) by {
                            let k = choose|k: int|
                                0 <= k < ns.take(i + 1).len() && #[trigger] conf_stem(
                                    ns.take(i + 1)[k],
                                ) == Some(x) && valid_name(x);
                            if k < i {
                                assert(ns.take(i as int)[k] == ns.take(i + 1)[k]);
                            }
                        }
                        assert forall|x: Seq<char>| #[trigger] conf_ids(ns.take(i as int)).insert(
                            idv,
                        ).contains(x) implies conf_ids(ns.take(i + 1)).contains(x) by {
                            if x == idv {
                                assert(conf_stem(ns.take(i + 1)[i as int]) == Some(x));
                            } else {
                                let k = choose|k: int|
                                    0 <= k < ns.take(i as int).len() && #[trigger] conf_stem(
                                        ns.take(i as int)[k],
                                    ) == Some(x) && valid_name(x);
                                assert(ns.take(i as int)[k] == ns.take(i + 1)[k]);
                            }
                        }
                    }
                }
            }
        }
        proof {
            if !added {
                assert(conf_ids(ns.take(i + 1)) =~= conf_ids(ns.take(i as int))) by {
                    assert(ns.take(i + 1)[i as int] == ns[i as int]);
                    assert forall|x: Seq<char>| #[trigger] conf_ids(ns.take(i + 1)).contains(x)
                        implies conf_ids(ns.take(i as int)).contains(x) by {
                        let k = choose|k: int|
                            0 <= k < ns.take(i + 1).len() && #[trigger] conf_stem(
                                ns.take(i + 1)[k],
                            ) == Some(x) && valid_name(x);
                        if k < i {
                            assert(ns.take(i as int)[k] == ns.take(i + 1)[k]);
                        }
                    }
                    assert forall|x: Seq<char>| #[trigger] conf_ids(ns.take(i as int)).contains(x)
                        implies conf_ids(ns.take(i + 1)).contains(x) by {
                        let k = choose|k: int|
                            0 <= k < ns.take(i as int).len() && #[trigger] conf_stem(
                                ns.take(i as int)[k],
                            ) == Some(x) && valid_name(x);
                        assert(ns.take(i as int)[k] == ns.take(i + 1)[k]);
                    }
                }
            }
        }
        i = i + 1;
    }
    assert(ns.take(i as int) =~= ns);
    out
}

} // verus!

verus! {

/// The path of a valid profile's configuration lies directly inside its directory:
/// the directory, a separator, then a name with no separator in it.
pub proof fn lemma_conf_path_in_dir(dir: Seq<char>, name: Seq<char>)
    requires
        valid_name(name),
    ensures
        conf_path_of(dir, name).take(dir.len() as int + 1) == dir.push('/'),
        forall|i: int|
            dir.len() + 1 <= i < conf_path_of(dir, name).len() ==> #[trigger] conf_path_of(dir, name)[i]
                != '/',
{
    lemma_valid_name_is_plain(name);
    let p = conf_path_of(dir, name);
    assert(p.take(dir.len() as int + 1) =~= dir.push('/'));
    assert forall|i: int| dir.len() + 1 <= i < p.len() implies #[trigger] p[i] != '/' by {
        if i < dir.len() + 1 + name.len() {
            assert(p[i] == name[i - dir.len() - 1]);
        } else {
            assert(p[i] == conf_ext()[i - dir.len() - 1 - name.len()]);
        }
    }
}

} // verus!
