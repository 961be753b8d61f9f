//! Import remappings of a project rebuilt from externally fetched contract sources.
use vstd::prelude::*;
use vstd::string::StrSliceExecFns;
use crate::text::{seq_starts_with, str_starts_with};

verus! {

/// An import remapping: imports that begin with `name` resolve under `path`.
#[derive(Debug, Clone)]
pub struct Remapping {
    pub name: String,
    pub path: String,
}

/// What `std::path::Path::join` gives for `rel` under `base`, as text.
pub uninterp spec fn joined_path(base: Seq<char>, rel: Seq<char>) -> Seq<char>;

/// Relies on `std::path::Path::join`: `rel` appended to `base` as a path, shown as
/// text (both are text, so nothing is lost in showing it).
#[verifier::external_body]
fn join_path(base: &str, rel: &str) -> (r: String)
    ensures
        r@ == joined_path(base@, rel@),
{
    std::path::Path::new(base).join(rel).display().to_string()
}

/// `s` without its leading `/` characters.
pub open spec fn trim_leading_slashes(s: Seq<char>) -> Seq<char>
    decreases s.len(),
{
    if s.len() > 0 && s[0] == '/' {
        trim_leading_slashes(s.drop_first())
    } else {
        s
    }
}

/// Drops the leading `/` characters of `s`.
pub fn trim_start_slashes(s: &str) -> (r: &str)
    ensures
        r@ == trim_leading_slashes(s@),
{
    let n = s.unicode_len();
    let mut i: usize = 0;
    assert(s@.subrange(0, n as int) =~= s@);
    while i < n && s.get_char(i) == '/'
        invariant
            n == s@.len(),
            i <= n,
            trim_leading_slashes(s@.subrange(i as int, n as int)) == trim_leading_slashes(s@),
        decreases n - i,
    {
        proof {
            let t = s@.subrange(i as int, n as int);
            assert(t.drop_first() =~= s@.subrange(i + 1, n as int));
        }
        i = i + 1;
    }
    s.substring_char(i, n)
}

/// The namespace of the OpenZeppelin contracts library, `@openzeppelin/`.
pub open spec fn oz_namespace() -> Seq<char> {
    seq!['@', 'o', 'p', 'e', 'n', 'z', 'e', 'p', 'p', 'e', 'l', 'i', 'n', '/']
}

/// The directory that the default OpenZeppelin remapping points to, `@openzeppelin`.
pub open spec fn oz_dir() -> Seq<char> {
    seq!['@', 'o', 'p', 'e', 'n', 'z', 'e', 'p', 'p', 'e', 'l', 'i', 'n']
}

/// Some remapping already covers the OpenZeppelin namespace.
pub open spec fn declares_oz(rs: Seq<Remapping>) -> bool {
    exists|i: int| 0 <= i < rs.len() && seq_starts_with(#[trigger] rs[i].name@, oz_namespace())
}

/// Makes every remapping's path absolute under `sources_path` (its leading `/`
/// dropped), then adds `@openzeppelin/` pointing at `<sources_path>/@openzeppelin`
/// unless a remapping already covers that namespace.
pub fn etherscan_remappings(sources_path: &str, remappings: Vec<Remapping>) -> (r: Vec<Remapping>)
    ensures
        r@.len() == remappings@.len() + (if declares_oz(remappings@) { 0int } else { 1int }),
        forall|i: int|
            0 <= i < remappings@.len() ==> #[trigger] r@[i].name@ == remappings@[i].name@
                && r@[i].path@ == joined_path(sources_path@, trim_leading_slashes(remappings@[i].path@)),
        !declares_oz(remappings@) ==> r@[remappings@.len() as int].name@ == oz_namespace()
            && r@[remappings@.len() as int].path@ == joined_path(sources_path@, oz_dir()),
{
    let mut out: Vec<Remapping> = Vec::new();
    let mut has_oz = false;
    let mut i: usize = 0;
    proof {
        reveal_strlit("@openzeppelin/");
        reveal_strlit("@openzeppelin");
        assert("@openzeppelin/"@ =~= oz_namespace());
        assert("@openzeppelin"@ =~= oz_dir());
    }
    while i < remappings.len()
        invariant
            i <= remappings@.len(),
            out@.len() == i,
            "@openzeppelin/"@ == oz_namespace(),
            forall|k: int|
                0 <= k < i ==> #[trigger] out@[k].name@ == remappings@[k].name@ && out@[k].path@
                    == joined_path(sources_path@, trim_leading_slashes(remappings@[k].path@)),
            has_oz == exists|k: int|
                0 <= k < i && seq_starts_with(#[trigger] remappings@[k].name@, oz_namespace()),
        decreases remappings@.len() - i,
    {
        let r = &remappings[i];
        let path = join_path(sources_path, trim_start_slashes(r.path.as_str()));
        if str_starts_with(r.name.as_str(), "@openzeppelin/") {
            has_oz = true;
        }
        let ghost before = out@;
        out.push(Remapping { name: r.name.clone(), path });
        assert forall|k: int| 0 <= k < before.len() implies #[trigger] out@[k] == before[k] by {}
        i = i + 1;
    }
    assert(out@.len() == remappings@.len());
    assert(forall|k: int|
        0 <= k < remappings@.len() ==> #[trigger] out@[k].name@ == remappings@[k].name@ && out@[k].path@
            == joined_path(sources_path@, trim_leading_slashes(remappings@[k].path@)));
    if !has_oz {
        let path = join_path(sources_path, "@openzeppelin");
        let ghost before = out@;
        out.push(Remapping { name: "@openzeppelin/".to_string(), path });
        assert forall|k: int| 0 <= k < before.len() implies #[trigger] out@[k] == before[k] by {}
        assert(out@[remappings@.len() as int].name@ == oz_namespace());
    }
    out
}

} // verus!
