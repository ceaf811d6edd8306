use vstd::prelude::*;
use crate::choice::{any_true, first_set, first_true};
use crate::config::{ProfileMeta, ProfileMetaView};
use crate::sorted::strs;
use crate::text::{chars_of, push_all, string_from_chars};

verus! {

/// A desktop notification to show.
#[derive(Debug, Clone)]
pub struct Notification {
    pub title: String,
    pub body: String,
}

/// Decides which desktop notifications to show.
#[derive(Debug, Clone, Copy)]
pub struct Notifier {
    pub enabled: bool,
}

pub open spec fn opt_meta_view(m: Option<&ProfileMeta>) -> Option<ProfileMetaView> {
    match m {
        Some(x) => Some(x@),
        None => None,
    }
}

/// A profile as a notification shows it: `<emoji> <label>`, the label falling back to
/// the id, and a second line with the description when there is a non-empty one.
pub open spec fn format_profile_spec(name: Seq<char>, meta: Option<ProfileMetaView>) -> Seq<char> {
    let emoji = match meta {
        Some(m) => m.emoji,
        None => None,
    };
    let label = match meta {
        Some(m) => match m.label {
            Some(l) => l,
            None => name,
        },
        None => name,
    };
    let description = match meta {
        Some(m) => match m.description {
            Some(d) => if d.len() > 0 {
                Some(d)
            } else {
                None
            },
            None => None,
        },
        None => None,
    };
    let head = match emoji {
        Some(e) => e + seq![' '] + label,
        None => label,
    };
    match description {
        Some(d) => head + seq!['\n'] + d,
        None => head,
    }
}

/// The notification text for one profile.
pub fn format_profile(name: &str, meta: Option<&ProfileMeta>) -> (r: String)
    ensures
        r@ == format_profile_spec(name@, opt_meta_view(meta)),
{
    let mut out: Vec<char> = Vec::new();
    let (emoji, label, description) = match meta {
        Some(m) => (&m.emoji, &m.label, &m.description),
        None => (&None, &None, &None),
    };
    match emoji {
        Some(e) => {
            let ec = chars_of(e.as_str());
            push_all(&mut out, ec.as_slice());
            out.push(' ');
        },
        None => {},
    }
    let lc = match label {
        Some(l) => chars_of(l.as_str()),
        None => chars_of(name),
    };
    push_all(&mut out, lc.as_slice());
    match description {
        Some(d) => {
            let dc = chars_of(d.as_str());
            if dc.len() > 0 {
                out.push('\n');
                push_all(&mut out, dc.as_slice());
            }
        },
        None => {},
    }
    assert(out@ =~= format_profile_spec(name@, opt_meta_view(meta)));
    string_from_chars(out.as_slice())
}

/// The notification bodies of several profiles, one per line.
pub open spec fn join_lines(parts: Seq<Seq<char>>) -> Seq<char>
    decreases parts.len(),
{
    if parts.len() == 0 {
        Seq::empty()
    } else if parts.len() == 1 {
        parts[0]
    } else {
        join_lines(parts.drop_last()) + seq!['\n'] + parts.last()
    }
}

/// A profile that went down, with its display metadata.
#[derive(Debug)]
pub struct DownItem {
    pub name: String,
    pub meta: Option<ProfileMeta>,
}

pub open spec fn down_item_text(i: DownItem) -> Seq<char> {
    format_profile_spec(
        i.name@,
        match i.meta {
            Some(m) => Some(m@),
            None => None,
        },
    )
}

pub open spec fn down_items_text(items: Seq<DownItem>) -> Seq<char> {
    join_lines(items.map_values(|i: DownItem| down_item_text(i)))
}

pub open spec fn connected_title() -> Seq<char> {
    "✅ Connected"@
}

pub open spec fn disconnected_title() -> Seq<char> {
    "⭕ Disconnected"@
}

pub open spec fn error_title() -> Seq<char> {
    "🆘 Error"@
}

impl Notifier {
    pub fn new(enabled: bool) -> (n: Notifier)
        ensures
            n.enabled == enabled,
    {
        Notifier { enabled }
    }

    /// The notification for a profile that came up; none when notifications are off.
    pub fn connected(&self, name: &str, meta: Option<&ProfileMeta>) -> (r: Option<Notification>)
        ensures
            !self.enabled ==> r is None,
            self.enabled ==> (r matches Some(n) && n.title@ == connected_title() && n.body@
                == format_profile_spec(name@, opt_meta_view(meta))),
    {
        if !self.enabled {
            return None;
        }
        Some(Notification { title: String::from_str("✅ Connected"), body: format_profile(name, meta) })
    }

    /// The notification for profiles that went down; none when notifications are off
    /// or nothing went down.
    pub fn disconnected(&self, items: &Vec<DownItem>) -> (r: Option<Notification>)
        ensures
            !self.enabled || items@.len() == 0 ==> r is None,
            self.enabled && items@.len() > 0 ==> (r matches Some(n) && n.title@ == disconnected_title()
                && n.body@ == down_items_text(items@)),
    {
        if !self.enabled || items.len() == 0 {
            return None;
        }
        let ghost texts = items@.map_values(|i: DownItem| down_item_text(i));
        let mut body: Vec<char> = Vec::new();
        let mut i: usize = 0;
        assert(texts.take(0) =~= Seq::<Seq<char>>::empty());
        while i < items.len()
            invariant
                texts == items@.map_values(|i: DownItem| down_item_text(i)),
                i <= items@.len(),
                body@ == join_lines(texts.take(i as int)),
            decreases items@.len() - i,
        {
            let it = &items[i];
            let m = match &it.meta {
                Some(x) => Some(x),
                None => None,
            };
            let t = format_profile(it.name.as_str(), m);
            let tc = chars_of(t.as_str());
            assert(tc@ == texts[i as int]);
            assert(texts.take(i + 1).drop_last() =~= texts.take(i as int));
            if i > 0 {
                body.push('\n');
            } else {
                assert(texts.take(0).len() == 0);
            }
            push_all(&mut body, tc.as_slice());
            i = i + 1;
        }
        assert(texts.take(i as int) =~= texts);
        Some(Notification { title: String::from_str("⭕ Disconnected"), body: string_from_chars(body.as_slice()) })
    }

    /// The notification for a failure; none when notifications are off.
    pub fn error(&self, body: &str) -> (r: Option<Notification>)
        ensures
            !self.enabled ==> r is None,
            self.enabled ==> (r matches Some(n) && n.title@ == error_title() && n.body@ == body@),
    {
        if !self.enabled {
            return None;
        }
        Some(Notification { title: String::from_str("🆘 Error"), body: String::from_str(body) })
    }
}

} // verus!

verus! {

/// AppleScript's escaping inside a string literal: `\` and `"` get a backslash.
pub open spec fn applescript_quote_spec(s: Seq<char>) -> Seq<char>
    decreases s.len(),
{
    if s.len() == 0 {
        Seq::empty()
    } else {
        let c = s.last();
        applescript_quote_spec(s.drop_last()) + if c == '\\' || c == '"' {
            seq!['\\', c]
        } else {
            seq![c]
        }
    }
}

/// Escapes `s` for an AppleScript string literal.
pub fn applescript_quote(s: &str) -> (r: String)
    ensures
        r@ == applescript_quote_spec(s@),
{
    let cs = chars_of(s);
    let mut out: Vec<char> = Vec::new();
    let mut i: usize = 0;
    assert(cs@.take(0) =~= Seq::<char>::empty());
    while i < cs.len()
        invariant
            cs@ == s@,
            i <= cs@.len(),
            out@ == applescript_quote_spec(cs@.take(i as int)),
        decreases cs@.len() - i,
    {
        let c = cs[i];
        assert(cs@.take(i + 1).drop_last() =~= cs@.take(i as int));
        if c == '\\' || c == '"' {
            out.push('\\');
        }
        out.push(c);
        i = i + 1;
        assert(out@ =~= applescript_quote_spec(cs@.take(i as int)));
    }
    assert(cs@.take(i as int) =~= cs@);
    string_from_chars(out.as_slice())
}

pub open spec fn osascript_paths_spec() -> Seq<Seq<char>> {
    seq!["/usr/bin/osascript"@]
}

pub open spec fn sudo_paths_spec() -> Seq<Seq<char>> {
    seq!["/usr/bin/sudo"@]
}

pub open spec fn notify_send_paths_spec() -> Seq<Seq<char>> {
    seq!["/usr/bin/notify-send"@, "/usr/local/bin/notify-send"@, "/opt/homebrew/bin/notify-send"@]
}

/// Where `osascript` may be installed.
pub fn osascript_paths() -> (r: Vec<String>)
    ensures
        strs(r@) == osascript_paths_spec(),
{
    let r = vec![String::from_str("/usr/bin/osascript")];
    assert(strs(r@) =~= osascript_paths_spec());
    r
}

/// Where `sudo` may be installed.
pub fn sudo_paths() -> (r: Vec<String>)
    ensures
        strs(r@) == sudo_paths_spec(),
{
    let r = vec![String::from_str("/usr/bin/sudo")];
    assert(strs(r@) =~= sudo_paths_spec());
    r
}

/// Where `notify-send` may be installed, in the order searched.
pub fn notify_send_paths() -> (r: Vec<String>)
    ensures
        strs(r@) == notify_send_paths_spec(),
{
    let r = vec![
        String::from_str("/usr/bin/notify-send"),
        String::from_str("/usr/local/bin/notify-send"),
        String::from_str("/opt/homebrew/bin/notify-send"),
    ];
    assert(strs(r@) =~= notify_send_paths_spec());
    r
}

/// The first of `candidates` that `present` marks as an existing file.
pub fn first_existing(candidates: &Vec<String>, present: &Vec<bool>) -> (r: Option<String>)
    ensures
        match r {
            Some(p) => any_true(present@, candidates@.len() as int) && p@ == candidates@[first_true(
                present@,
                candidates@.len() as int,
            )]@,
            None => !any_true(present@, candidates@.len() as int),
        },
{
    match first_set(present, candidates.len()) {
        Some(i) => Some(candidates[i].clone()),
        None => None,
    }
}

/// The AppleScript that shows a notification.
pub open spec fn applescript_spec(title: Seq<char>, body: Seq<char>) -> Seq<char> {
    "display notification \""@ + applescript_quote_spec(body) + "\" with title \""@
        + applescript_quote_spec(title) + seq!['"']
}

/// The calling user under sudo: `SUDO_USER` when it is set and not empty.
pub open spec fn sudo_user_of(sudo_user: Option<Seq<char>>) -> Option<Seq<char>> {
    match sudo_user {
        Some(u) => if u.len() > 0 {
            Some(u)
        } else {
            None
        },
        None => None,
    }
}

/// The command line that shows a notification: `<prefix> <program> <args>`, run
/// through `sudo -u <user>` in the calling user's session when under sudo; `None`
/// when a needed program is missing.
pub open spec fn notify_argv_spec(
    program: Option<Seq<char>>,
    sudo: Option<Seq<char>>,
    sudo_user: Option<Seq<char>>,
    args: Seq<Seq<char>>,
) -> Option<Seq<Seq<char>>> {
    match program {
        None => None,
        Some(p) => match sudo_user_of(sudo_user) {
            Some(u) => match sudo {
                Some(s) => Some(seq![s, "-u"@, u, p] + args),
                None => None,
            },
            None => Some(seq![p] + args),
        },
    }
}

/// Builds the command line for a notifier program with its arguments.
fn notify_argv(
    program: Option<String>,
    sudo: Option<String>,
    sudo_user: Option<&str>,
    args: Vec<String>,
) -> (r: Option<Vec<String>>)
    ensures
        match notify_argv_spec(
            crate::profile::opt_view(program),
            crate::profile::opt_view(sudo),
            match sudo_user {
                Some(u) => Some(u@),
                None => None,
            },
            strs(args@),
        ) {
            Some(v) => r matches Some(x) && strs(x@) == v,
            None => r is None,
        },
{
    let p = match program {
        Some(p) => p,
        None => return None,
    };
    let user = match sudo_user {
        Some(u) => if chars_of(u).len() > 0 {
            Some(u)
        } else {
            None
        },
        None => None,
    };
    let mut out: Vec<String> = Vec::new();
    match user {
        Some(u) => {
            let s = match sudo {
                Some(s) => s,
                None => return None,
            };
            out.push(s);
            out.push(String::from_str("-u"));
            out.push(String::from_str(u));
            out.push(p);
        },
        None => {
            out.push(p);
        },
    }
    let ghost head = strs(out@);
    let mut i: usize = 0;
    while i < args.len()
        invariant
            i <= args@.len(),
            strs(out@) == head + strs(args@).take(i as int),
        decreases args@.len() - i,
    {
        let a = args[i].clone();
        assert(a@ == strs(args@)[i as int]);
        let ghost prev = strs(out@);
        out.push(a);
        assert(strs(out@) =~= prev.push(a@));
        assert(strs(args@).take(i + 1) =~= strs(args@).take(i as int).push(a@));
        i = i + 1;
    }
    assert(strs(args@).take(i as int) =~= strs(args@));
    Some(out)
}

} // verus!

verus! {

/// The AppleScript that shows a notification titled `title` with text `body`.
pub fn applescript(title: &str, body: &str) -> (r: String)
    ensures
        r@ == applescript_spec(title@, body@),
{
    let mut v = chars_of("display notification \"");
    let qb = applescript_quote(body);
    push_all(&mut v, chars_of(qb.as_str()).as_slice());
    push_all(&mut v, chars_of("\" with title \"").as_slice());
    let qt = applescript_quote(title);
    push_all(&mut v, chars_of(qt.as_str()).as_slice());
    v.push('"');
    assert(v@ =~= applescript_spec(title@, body@));
    string_from_chars(v.as_slice())
}

pub open spec fn opt_str_ref(o: Option<&str>) -> Option<Seq<char>> {
    match o {
        Some(u) => Some(u@),
        None => None,
    }
}

/// The command line that shows a notification on macOS: `osascript -e <script>`,
/// through `sudo -u <user>` under sudo. `osascript` and `sudo` are the located
/// programs, if found; `sudo_user` is `SUDO_USER`.
pub fn macos_command(
    osascript: Option<String>,
    sudo: Option<String>,
    sudo_user: Option<&str>,
    title: &str,
    body: &str,
) -> (r: Option<Vec<String>>)
    ensures
        match notify_argv_spec(
            crate::profile::opt_view(osascript),
            crate::profile::opt_view(sudo),
            opt_str_ref(sudo_user),
            seq!["-e"@, applescript_spec(title@, body@)],
        ) {
            Some(v) => r matches Some(x) && strs(x@) == v,
            None => r is None,
        },
{
    let args = vec![String::from_str("-e"), applescript(title, body)];
    assert(strs(args@) =~= seq!["-e"@, applescript_spec(title@, body@)]);
    notify_argv(osascript, sudo, sudo_user, args)
}

/// The command line that shows a notification elsewhere: `notify-send <title> <body>`,
/// through `sudo -u <user>` under sudo.
pub fn linux_command(
    notify_send: Option<String>,
    sudo: Option<String>,
    sudo_user: Option<&str>,
    title: &str,
    body: &str,
) -> (r: Option<Vec<String>>)
    ensures
        match notify_argv_spec(
            crate::profile::opt_view(notify_send),
            crate::profile::opt_view(sudo),
            opt_str_ref(sudo_user),
            seq![title@, body@],
        ) {
            Some(v) => r matches Some(x) && strs(x@) == v,
            None => r is None,
        },
{
    let args = vec![String::from_str(title), String::from_str(body)];
    assert(strs(args@) =~= seq![title@, body@]);
    notify_argv(notify_send, sudo, sudo_user, args)
}

} // verus!
