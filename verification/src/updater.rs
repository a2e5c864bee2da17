//! Deciding, from a published release, whether to update and what to
//! download.

use vstd::prelude::*;
use crate::numbers::{decimal, format_u64};
use crate::text::{chars_of, contains_chars, contains_str, string_of_range};
use crate::version::{is_newer, version_newer};

verus! {

/// Metadata about an available release.
#[derive(Debug)]
pub struct ReleaseInfo {
    /// The release's tag, as published.
    pub tag: String,
    /// Where its binary is downloaded from; empty for a source-only release.
    pub download_url: String,
}

impl Clone for ReleaseInfo {
    fn clone(&self) -> (r: Self)
        ensures
            r == *self,
    {
        ReleaseInfo { tag: self.tag.clone(), download_url: self.download_url.clone() }
    }
}

/// A file attached to a published release.
#[derive(Debug)]
pub struct ReleaseAsset {
    /// The file name.
    pub name: String,
    /// Where the file is downloaded from.
    pub browser_download_url: String,
}

/// `s` without its leading `v` characters (`trim_start_matches('v')`).
pub open spec fn strip_v(s: Seq<char>) -> Seq<char>
    decreases s.len(),
{
    if s.len() > 0 && s[0] == 'v' {
        strip_v(s.drop_first())
    } else {
        s
    }
}

/// `s` without its leading `v` characters.
pub fn trim_leading_v(s: &str) -> (r: String)
    ensures
        r@ == strip_v(s@),
{
    let v = chars_of(s);
    let n = v.len();
    let mut i: usize = 0;
    assert(v@.subrange(0, n as int) =~= v@);
    while i < n && v[i] == 'v'
        invariant
            i <= n == v.len(),
            strip_v(v@) == strip_v(v@.subrange(i as int, n as int)),
        decreases n - i,
    {
        assert(v@.subrange(i as int, n as int).drop_first() =~= v@.subrange(i + 1, n as int));
        i += 1;
    }
    string_of_range(&v, i, n)
}

/// The file name of a Linux x86-64 build.
pub open spec fn is_linux_binary(name: Seq<char>) -> bool {
    contains_str(name, "linux"@) && contains_str(name, "x86_64"@)
}

/// The file name of a bare binary.
pub open spec fn is_plain_binary(name: Seq<char>) -> bool {
    name == "clipdeck"@
}

/// The file name of a gzip-compressed tarball.
pub open spec fn is_tarball(name: Seq<char>) -> bool {
    name.len() >= 7 && name.subrange(name.len() - 7, name.len() as int) == ".tar.gz"@
}

/// `i` is the first asset whose name satisfies `p`.
pub open spec fn first_with(assets: Seq<ReleaseAsset>, p: spec_fn(Seq<char>) -> bool, i: int) -> bool {
    &&& 0 <= i < assets.len()
    &&& p(assets[i].name@)
    &&& forall|j: int| 0 <= j < i ==> !p(#[trigger] assets[j].name@)
}

/// Some asset's name satisfies `p`.
pub open spec fn any_with(assets: Seq<ReleaseAsset>, p: spec_fn(Seq<char>) -> bool) -> bool {
    exists|i: int| 0 <= i < assets.len() && p(#[trigger] assets[i].name@)
}

/// The name predicate of each kind.
pub open spec fn kind_pred(kind: u8) -> spec_fn(Seq<char>) -> bool {
    if kind == 0 {
        |n: Seq<char>| is_linux_binary(n)
    } else if kind == 1 {
        |n: Seq<char>| is_plain_binary(n)
    } else {
        |n: Seq<char>| is_tarball(n)
    }
}

/// The first asset whose name satisfies `kind_pred(kind)`.
pub open spec fn first_of_kind(assets: Seq<ReleaseAsset>, kind: u8) -> int {
    choose|i: int| #[trigger] first_with(assets, kind_pred(kind), i)
}

/// The download URL chosen from `assets`: the first Linux x86-64 build,
/// else the first bare binary, else the first tarball; empty when there
/// is none of these.
pub open spec fn chosen_url(assets: Seq<ReleaseAsset>) -> Seq<char> {
    if any_with(assets, kind_pred(0)) {
        assets[first_of_kind(assets, 0)].browser_download_url@
    } else if any_with(assets, kind_pred(1)) {
        assets[first_of_kind(assets, 1)].browser_download_url@
    } else if any_with(assets, kind_pred(2)) {
        assets[first_of_kind(assets, 2)].browser_download_url@
    } else {
        Seq::empty()
    }
}

/// There is at most one first asset satisfying `p`.
proof fn lemma_first_with_unique(assets: Seq<ReleaseAsset>, p: spec_fn(Seq<char>) -> bool, i: int, k: int)
    requires
        first_with(assets, p, i),
        first_with(assets, p, k),
    ensures
        i == k,
{
    if i < k {
        assert(!p(assets[i].name@));
    } else if k < i {
        assert(!p(assets[k].name@));
    }
}

fn linux_binary(name: &String) -> (b: bool)
    ensures
        b == is_linux_binary(name@),
{
    let v = chars_of(name.as_str());
    let a = chars_of("linux");
    let b = chars_of("x86_64");
    contains_chars(&v, &a) && contains_chars(&v, &b)
}

fn plain_binary(name: &String) -> (b: bool)
    ensures
        b == is_plain_binary(name@),
{
    let v = chars_of(name.as_str());
    let w = chars_of("clipdeck");
    if v.len() != w.len() {
        return false;
    }
    let mut i: usize = 0;
    while i < v.len()
        invariant
            v.len() == w.len(),
            w@ == "clipdeck"@,
            v@ == name@,
            i <= v.len(),
            forall|k: int| 0 <= k < i ==> v@[k] == w@[k],
        decreases v.len() - i,
    {
        if v[i] != w[i] {
            return false;
        }
        i += 1;
    }
    assert(v@ =~= w@);
    true
}

fn tarball(name: &String) -> (b: bool)
    ensures
        b == is_tarball(name@),
{
    let v = chars_of(name.as_str());
    let w = chars_of(".tar.gz");
    proof {
        reveal_strlit(".tar.gz");
    }
    let n = v.len();
    if n < 7 {
        return false;
    }
    let mut i: usize = 0;
    while i < 7
        invariant
            w@ == ".tar.gz"@,
            w@.len() == 7,
            v@ == name@,
            n == v.len() >= 7,
            i <= 7,
            forall|k: int| 0 <= k < i ==> v@[n - 7 + k] == w@[k],
        decreases 7 - i,
    {
        if v[n - 7 + i] != w[i] {
            assert(v@.subrange(n - 7, n as int)[i as int] != w@[i as int]);
            return false;
        }
        i += 1;
    }
    assert(v@.subrange(n - 7, n as int) =~= w@);
    true
}

/// Which of the three kinds of asset a name is.
fn asset_kind(name: &String, kind: u8) -> (b: bool)
    requires
        kind < 3,
    ensures
        kind == 0 ==> b == is_linux_binary(name@),
        kind == 1 ==> b == is_plain_binary(name@),
        kind == 2 ==> b == is_tarball(name@),
{
    if kind == 0 {
        linux_binary(name)
    } else if kind == 1 {
        plain_binary(name)
    } else {
        tarball(name)
    }
}

/// Index of the first asset of the given kind.
fn find_asset(assets: &Vec<ReleaseAsset>, kind: u8) -> (r: Option<usize>)
    requires
        kind < 3,
    ensures
        match r {
            Some(i) => first_with(assets@, kind_pred(kind), i as int),
            None => !any_with(assets@, kind_pred(kind)),
        },
{
    let ghost p = kind_pred(kind);
    let n = assets.len();
    let mut i: usize = 0;
    while i < n
        invariant
            n == assets@.len(),
            i <= n,
            kind < 3,
            p == kind_pred(kind),
            forall|j: int| 0 <= j < i ==> !p(#[trigger] assets@[j].name@),
        decreases n - i,
    {
        if asset_kind(&assets[i].name, kind) {
            return Some(i);
        }
        i += 1;
    }
    None
}

/// The release that an update should install, given the latest release's
/// tag and assets and the running version: `None` when the release is not
/// newer (leading `v`s ignored on both sides); otherwise the tag and the
/// chosen download URL.
pub open spec fn update_for(tag: Seq<char>, assets: Seq<ReleaseAsset>, current: Seq<char>) -> Option<(Seq<char>, Seq<char>)> {
    if version_newer(strip_v(tag), strip_v(current)) {
        Some((tag, chosen_url(assets)))
    } else {
        None
    }
}

/// An asset name that holds both `linux` and `x86_64`.
pub open spec fn names_linux_x86_64(name: Seq<char>) -> bool {
    contains_str(name, "linux"@) && contains_str(name, "x86_64"@)
}

/// An x86-64 Linux build wins: when the asset at `i` is the first whose
/// name holds both `linux` and `x86_64`, an update downloads that asset,
/// whatever bare binaries or tarballs come before it.
pub proof fn law_update_prefers_linux_x86_64(
    tag: Seq<char>,
    assets: Seq<ReleaseAsset>,
    current: Seq<char>,
    i: int,
)
    requires
        0 <= i < assets.len(),
        contains_str(assets[i].name@, "linux"@),
        contains_str(assets[i].name@, "x86_64"@),
        forall|j: int| 0 <= j < i ==> !names_linux_x86_64(#[trigger] assets[j].name@),
        update_for(tag, assets, current) is Some,
    ensures
        update_for(tag, assets, current) == Some((tag, assets[i].browser_download_url@)),
{
    let p = kind_pred(0);
    assert(p(assets[i].name@));
    assert forall|j: int| 0 <= j < i implies !p(#[trigger] assets[j].name@) by {
        assert(!names_linux_x86_64(assets[j].name@));
    }
    assert(first_with(assets, p, i));
    assert(any_with(assets, p));
    let k = first_of_kind(assets, 0);
    assert(first_with(assets, p, k));
    lemma_first_with_unique(assets, p, i, k);
}

/// Decides whether the latest release is an update, and what to download.
pub fn release_update(tag_name: String, assets: &Vec<ReleaseAsset>, current_version: &str) -> (r: Option<ReleaseInfo>)
    ensures
        match r {
            Some(info) => update_for(tag_name@, assets@, current_version@) == Some(
                (info.tag@, info.download_url@),
            ),
            None => update_for(tag_name@, assets@, current_version@) is None,
        },
        forall|i: int|
            0 <= i < assets@.len() && names_linux_x86_64(#[trigger] assets@[i].name@) && (forall|j: int|
                0 <= j < i ==> !names_linux_x86_64(#[trigger] assets@[j].name@)) && r is Some
                ==> r->0.download_url@ == assets@[i].browser_download_url@,
{
    let remote = trim_leading_v(tag_name.as_str());
    let local = trim_leading_v(current_version);
    if !is_newer(remote.as_str(), local.as_str()) {
        return None;
    }
    let ghost a = assets@;
    let url = match find_asset(assets, 0) {
        Some(i) => {
            proof {
                lemma_first_with_unique(a, kind_pred(0), i as int, first_of_kind(a, 0));
            }
            assets[i].browser_download_url.clone()
        },
        None => match find_asset(assets, 1) {
            Some(i) => {
                proof {
                    lemma_first_with_unique(a, kind_pred(1), i as int, first_of_kind(a, 1));
                }
                assets[i].browser_download_url.clone()
            },
            None => match find_asset(assets, 2) {
                Some(i) => {
                    proof {
                        lemma_first_with_unique(a, kind_pred(2), i as int, first_of_kind(a, 2));
                    }
                    assets[i].browser_download_url.clone()
                },
                None => String::new(),
            },
        },
    };
    let r = Some(ReleaseInfo { tag: tag_name, download_url: url });
    proof {
        assert forall|i: int|
            0 <= i < a.len() && names_linux_x86_64(#[trigger] a[i].name@) && (forall|j: int|
                0 <= j < i ==> !names_linux_x86_64(#[trigger] a[j].name@)) implies url@
                == a[i].browser_download_url@ by {
            law_update_prefers_linux_x86_64(tag_name@, a, current_version@, i);
        }
    }
    r
}

/// The message refusing to install the release tagged `tag`, which has no
/// binary to download.
pub open spec fn no_binary_message(tag: Seq<char>) -> Seq<char> {
    "No binary asset in release "@ + tag + ". Please rebuild from source."@
}

/// Where to download the release's binary from; the refusal message when
/// the release has none.
pub fn install_url(info: &ReleaseInfo) -> (r: Result<String, String>)
    ensures
        match r {
            Ok(u) => info.download_url@.len() > 0 && u@ == info.download_url@,
            Err(m) => info.download_url@.len() == 0 && m@ == no_binary_message(info.tag@),
        },
{
    if info.download_url.as_str().is_empty() {
        let m = String::from_str("No binary asset in release ");
        let m = m.concat(info.tag.as_str());
        Err(m.concat(". Please rebuild from source."))
    } else {
        Ok(info.download_url.clone())
    }
}

/// The download progress line for `downloaded` of `total` bytes of the
/// release tagged `tag`.
pub open spec fn progress_line(tag: Seq<char>, downloaded: nat, total: nat) -> Seq<char> {
    "Downloading "@ + tag + "… "@ + decimal(downloaded * 100 / total) + "%"@
}

/// The progress line to show after `downloaded` of `total` bytes; `None`
/// when the total size is unknown (zero).
pub fn download_progress(tag: &str, downloaded: u64, total: u64) -> (r: Option<String>)
    requires
        total > 0 ==> downloaded * 100 <= u64::MAX,
    ensures
        match r {
            Some(s) => total > 0 && s@ == progress_line(tag@, downloaded as nat, total as nat),
            None => total == 0,
        },
{
    if total == 0 {
        return None;
    }
    let pct = downloaded * 100 / total;
    let s = String::from_str("Downloading ");
    let s = s.concat(tag);
    let s = s.concat("… ");
    let p = format_u64(pct);
    let s = s.concat(p.as_str());
    let s = s.concat("%");
    Some(s)
}

} // verus!
