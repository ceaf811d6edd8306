use vstd::prelude::*;
use crate::config::{ProfileMeta, ProfileMetaView};
use crate::notify::opt_meta_view;
use crate::profile::{wg_dirs, wg_dirs_spec};
use crate::sorted::strs;
use crate::text::{chars_of, push_all, string_from_chars};

verus! {

/// The names that `connect` takes down first: every active one but the target, in order.
pub open spec fn others(active: Seq<Seq<char>>, target: Seq<char>) -> Seq<Seq<char>>
    decreases active.len(),
{
    if active.len() == 0 {
        Seq::empty()
    } else {
        let rest = others(active.drop_last(), target);
        if active.last() == target {
            rest
        } else {
            rest.push(active.last())
        }
    }
}

/// What `connect <target>` does given the active configurations.
#[derive(Debug)]
pub struct ConnectPlan {
    /// Interfaces to take down, in order.
    pub to_down: Vec<String>,
    /// The target is active already: nothing is brought up.
    pub already_active: bool,
}

/// Plans `connect <target>`: take every other active interface down; bring the target
/// up unless it is active already.
pub fn connect_plan(target: &str, active: &Vec<String>) -> (p: ConnectPlan)
    ensures
        strs(p.to_down@) == others(strs(active@), target@),
        p.already_active == strs(active@).contains(target@),
{
    let ghost av = strs(active@);
    let tc = chars_of(target);
    let mut to_down: Vec<String> = Vec::new();
    let mut found = false;
    let mut i: usize = 0;
    assert(av.take(0) =~= Seq::<Seq<char>>::empty());
    while i < active.len()
        invariant
            av == strs(active@),
            tc@ == target@,
            i <= active@.len(),
            strs(to_down@) == others(av.take(i as int), target@),
            found == av.take(i as int).contains(target@),
        decreases active@.len() - i,
    {
        let ac = chars_of(active[i].as_str());
        assert(ac@ == av[i as int]);
        proof {
            assert(av.take(i + 1).drop_last() =~= av.take(i as int));
            assert(av.take(i + 1).last() == av[i as int]);
            assert(av.take(i + 1) =~= av.take(i as int).push(av[i as int]));
            av.take(i as int).lemma_push_to_set_commute(av[i as int]);
            assert(av.take(i + 1).to_set().contains(target@) == av.take(i + 1).contains(target@));
            assert(av.take(i as int).to_set().contains(target@) == av.take(i as int).contains(target@));
        }
        if crate::status::chars_eq(ac.as_slice(), tc.as_slice()) {
            found = true;
        } else {
            let ghost before = strs(to_down@);
            to_down.push(active[i].clone());
            assert(strs(to_down@) =~= before.push(av[i as int]));
        }
        i = i + 1;
    }
    assert(av.take(i as int) =~= av);
    ConnectPlan { to_down, already_active: found }
}

/// `connect` never takes its own target down.
pub proof fn lemma_connect_keeps_target(active: Seq<Seq<char>>, target: Seq<char>)
    ensures
        !others(active, target).contains(target),
    decreases active.len(),
{
    if active.len() > 0 {
        lemma_connect_keeps_target(active.drop_last(), target);
        let rest = others(active.drop_last(), target);
        if active.last() != target {
            assert forall|k: int| 0 <= k < rest.push(active.last()).len() implies rest.push(
                active.last(),
            )[k] != target by {
                if k < rest.len() {
                    assert(rest.push(active.last())[k] == rest[k]);
                }
            }
        }
    }
}

/// The positions of the set flags, in order.
pub open spec fn set_positions(ok: Seq<bool>) -> Seq<int>
    decreases ok.len(),
{
    if ok.len() == 0 {
        Seq::empty()
    } else {
        let rest = set_positions(ok.drop_last());
        if ok.last() {
            rest.push(ok.len() - 1)
        } else {
            rest
        }
    }
}

/// The outcome of `off` with no profile, given whether taking down each active
/// interface succeeded: the positions of those taken down, or, when none could be
/// and some failed, the position of the last failure, whose error is reported.
pub fn off_all_result(ok: &Vec<bool>) -> (r: Result<Vec<usize>, usize>)
    ensures
        set_positions(ok@).len() == 0 && ok@.len() > 0 ==> r == Err::<Vec<usize>, usize>(
            (ok@.len() - 1) as usize,
        ),
        !(set_positions(ok@).len() == 0 && ok@.len() > 0) ==> (r matches Ok(v) && v@.map_values(
            |x: usize| x as int,
        ) == set_positions(ok@)),
{
    let mut downed: Vec<usize> = Vec::new();
    let mut i: usize = 0;
    assert(ok@.take(0) =~= Seq::<bool>::empty());
    assert(downed@.map_values(|x: usize| x as int) =~= Seq::<int>::empty());
    while i < ok.len()
        invariant
            i <= ok@.len(),
            downed@.map_values(|x: usize| x as int) == set_positions(ok@.take(i as int)),
        decreases ok@.len() - i,
    {
        assert(ok@.take(i + 1).drop_last() =~= ok@.take(i as int));
        assert(ok@.take(i + 1).last() == ok@[i as int]);
        if ok[i] {
            let ghost before = downed@.map_values(|x: usize| x as int);
            downed.push(i);
            assert(downed@.map_values(|x: usize| x as int) =~= before.push(i as int));
        }
        i = i + 1;
    }
    assert(ok@.take(i as int) =~= ok@);
    if downed.len() == 0 && ok.len() > 0 {
        Err(ok.len() - 1)
    } else {
        Ok(downed)
    }
}

/// `n` spaces.
pub open spec fn spaces(n: nat) -> Seq<char> {
    Seq::new(n, |i: int| ' ')
}

/// `format!("{:<16}", id)`: the id padded with spaces to sixteen characters.
pub open spec fn padded16(id: Seq<char>) -> Seq<char> {
    if id.len() < 16 {
        id + spaces((16 - id.len()) as nat)
    } else {
        id
    }
}

/// A line of `list`: `<id padded to 16> <emoji> <label>`, with empty parts left out.
pub open spec fn list_line_spec(id: Seq<char>, meta: Option<ProfileMetaView>) -> Seq<char> {
    let label = match meta {
        Some(m) => match m.label {
            Some(l) => l,
            None => Seq::empty(),
        },
        None => Seq::empty(),
    };
    let emoji = match meta {
        Some(m) => match m.emoji {
            Some(e) => e,
            None => Seq::empty(),
        },
        None => Seq::empty(),
    };
    let sep = if emoji.len() == 0 {
        Seq::empty()
    } else {
        seq![' ']
    };
    padded16(id) + seq![' '] + emoji + sep + label
}

/// The text line `list` prints for a profile.
pub fn list_line(id: &str, meta: Option<&ProfileMeta>) -> (r: String)
    ensures
        r@ == list_line_spec(id@, opt_meta_view(meta)),
{
    let mut out = chars_of(id);
    let n = out.len();
    if n < 16 {
        let mut k = n;
        while k < 16
            invariant
                n <= k <= 16,
                out@ == id@ + spaces((k - n) as nat),
                n == id@.len(),
            decreases 16 - k,
        {
            out.push(' ');
            k = k + 1;
            assert(out@ =~= id@ + spaces((k - n) as nat));
        }
    }
    out.push(' ');
    let (emoji, label) = match meta {
        Some(m) => (&m.emoji, &m.label),
        None => (&None, &None),
    };
    let ec = match emoji {
        Some(e) => chars_of(e.as_str()),
        None => Vec::new(),
    };
    push_all(&mut out, ec.as_slice());
    if ec.len() > 0 {
        out.push(' ');
    }
    match label {
        Some(l) => {
            let lc = chars_of(l.as_str());
            push_all(&mut out, lc.as_slice());
        },
        None => {},
    }
    assert(out@ =~= list_line_spec(id@, opt_meta_view(meta)));
    string_from_chars(out.as_slice())
}

/// `parts` joined with `sep` between consecutive items.
pub open spec fn joined(parts: Seq<Seq<char>>, sep: Seq<char>) -> Seq<char>
    decreases parts.len(),
{
    if parts.len() == 0 {
        Seq::empty()
    } else if parts.len() == 1 {
        parts[0]
    } else {
        joined(parts.drop_last(), sep) + sep + parts.last()
    }
}

/// The text `list` prints when no profile is found: the searched directories,
/// separated by `, `, in brackets.
pub open spec fn no_profiles_text() -> Seq<char> {
    "(no profiles found in "@ + joined(wg_dirs_spec(), ", "@) + ")"@
}

/// The line `list` prints when no profile is found.
pub fn no_profiles_message() -> (r: String)
    ensures
        r@ == no_profiles_text(),
{
    let dirs = wg_dirs();
    let ghost parts = strs(dirs@);
    let sep = chars_of(", ");
    let mut body: Vec<char> = Vec::new();
    let mut i: usize = 0;
    assert(parts.take(0) =~= Seq::<Seq<char>>::empty());
    while i < dirs.len()
        invariant
            parts == strs(dirs@),
            sep@ == ", "@,
            i <= dirs@.len(),
            body@ == joined(parts.take(i as int), sep@),
        decreases dirs@.len() - i,
    {
        let dc = chars_of(dirs[i].as_str());
        assert(dc@ == parts[i as int]);
        assert(parts.take(i + 1).drop_last() =~= parts.take(i as int));
        if i > 0 {
            push_all(&mut body, sep.as_slice());
        }
        push_all(&mut body, dc.as_slice());
        proof {
            if i == 0 {
                assert(body@ =~= parts.take(1)[0]);
            } else {
                assert(body@ =~= joined(parts.take(i as int), sep@) + sep@ + parts.take(i + 1).last());
            }
        }
        i = i + 1;
    }
    assert(parts.take(i as int) =~= parts);
    let mut out = chars_of("(no profiles found in ");
    push_all(&mut out, body.as_slice());
    let close = chars_of(")");
    push_all(&mut out, close.as_slice());
    assert(out@ =~= no_profiles_text());
    string_from_chars(out.as_slice())
}

} // verus!
