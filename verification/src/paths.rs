//! File locations under the user's directories, built the way
//! `PathBuf::join` builds them.

use vstd::prelude::*;
use crate::text::chars_of;

verus! {

/// `base.join(comp)` for a relative `comp`: a `/` goes between them unless
/// `base` is empty or already ends with one.
pub open spec fn join(base: Seq<char>, comp: Seq<char>) -> Seq<char> {
    if base.len() > 0 && base.last() != '/' {
        base + seq!['/'] + comp
    } else {
        base + comp
    }
}

/// `base.join(comps[0]).join(comps[1])...`
pub open spec fn join_all(base: Seq<char>, comps: Seq<Seq<char>>) -> Seq<char>
    decreases comps.len(),
{
    if comps.len() == 0 {
        base
    } else {
        join(join_all(base, comps.drop_last()), comps.last())
    }
}

/// `comps` joined under `dir`, or under `/tmp` when there is no `dir`.
pub open spec fn path_under(dir: Option<Seq<char>>, comps: Seq<Seq<char>>) -> Seq<char> {
    join_all(
        match dir {
            Some(d) => d,
            None => "/tmp"@,
        },
        comps,
    )
}

/// Appends the relative component `comp` to the path `p`.
pub fn push_component(p: &mut String, comp: &str)
    ensures
        final(p)@ == join(old(p)@, comp@),
{
    let v = chars_of(p.as_str());
    if v.len() > 0 && v[v.len() - 1] != '/' {
        p.append("/");
        p.append(comp);
        proof {
            reveal_strlit("/");
        }
        assert(final(p)@ =~= join(old(p)@, comp@));
    } else {
        p.append(comp);
    }
}

/// `dir` (or `/tmp`) joined with `a` and then `b`.
pub fn join_path(dir: Option<&str>, a: &str, b: &str) -> (p: String)
    ensures
        p@ == path_under(
            match dir {
                Some(d) => Some(d@),
                None => None,
            },
            seq![a@, b@],
        ),
{
    let mut p = match dir {
        Some(d) => String::from_str(d),
        None => String::from_str("/tmp"),
    };
    let ghost base = p@;
    push_component(&mut p, a);
    push_component(&mut p, b);
    proof {
        let s = seq![a@, b@];
        assert(s.drop_last() =~= seq![a@]);
        assert(seq![a@].drop_last() =~= Seq::<Seq<char>>::empty());
        assert(join_all(base, Seq::<Seq<char>>::empty()) == base);
        assert(join_all(base, seq![a@]) == join(base, a@));
        assert(join_all(base, s) == join(join(base, a@), b@));
    }
    p
}

/// The user's configuration directory (`dirs::config_dir`), as a string
/// (a path that is not valid UTF-8 is converted lossily).  It depends on
/// the environment, so nothing is stated of it.
#[verifier::external_body]
pub(crate) fn config_dir() -> Option<String> {
    dirs::config_dir().map(|p| p.to_string_lossy().into_owned())
}

/// The user's local data directory (`dirs::data_local_dir`), as a string
/// (a path that is not valid UTF-8 is converted lossily).  It depends on
/// the environment, so nothing is stated of it.
#[verifier::external_body]
pub(crate) fn data_local_dir() -> Option<String> {
    dirs::data_local_dir().map(|p| p.to_string_lossy().into_owned())
}

/// Where the database file lives under the data directory `dir`.
pub open spec fn db_path_in(dir: Option<Seq<char>>) -> Seq<char> {
    path_under(dir, seq!["clipdeck"@, "history.db"@])
}

/// Path to the history database, `<data dir>/clipdeck/history.db`.
pub fn history_db_path() -> (p: String)
    ensures
        exists|d: Option<Seq<char>>| #[trigger] db_path_in(d) == p@,
{
    match data_local_dir() {
        Some(d) => {
            let p = join_path(Some(d.as_str()), "clipdeck", "history.db");
            assert(db_path_in(Some(d@)) == p@);
            p
        },
        None => {
            let p = join_path(None, "clipdeck", "history.db");
            assert(db_path_in(None) == p@);
            p
        },
    }
}

/// The application's directory under the configuration directory `dir`.
pub open spec fn app_config_dir_in(dir: Seq<char>) -> Seq<char> {
    join(dir, "clipdeck"@)
}

/// The application's configuration directory, `<config dir>/clipdeck`;
/// `None` when there is no configuration directory.
pub fn app_config_dir() -> (p: Option<String>)
    ensures
        p is Some ==> exists|d: Seq<char>| #[trigger] app_config_dir_in(d) == p->0@,
{
    match config_dir() {
        Some(d) => {
            let mut p = d.clone();
            push_component(&mut p, "clipdeck");
            assert(app_config_dir_in(d@) == p@);
            Some(p)
        },
        None => None,
    }
}

/// Where the saved window position lives under the configuration
/// directory `dir`.
pub open spec fn window_pos_path_in(dir: Seq<char>) -> Seq<char> {
    join(dir, "clipdeck/window_pos"@)
}

/// Path to the saved window position, `<config dir>/clipdeck/window_pos`;
/// `None` when there is no configuration directory.
pub fn window_pos_path() -> (p: Option<String>)
    ensures
        p is Some ==> exists|d: Seq<char>| #[trigger] window_pos_path_in(d) == p->0@,
{
    match config_dir() {
        Some(d) => {
            let mut p = d.clone();
            push_component(&mut p, "clipdeck/window_pos");
            assert(window_pos_path_in(d@) == p@);
            Some(p)
        },
        None => None,
    }
}

} // verus!
