//! Resolution of a relative import specifier against the importing module:
//! the candidate paths tried, in order, and the choice among them.

use vstd::prelude::*;
use crate::fspath::{join_path, parent_of, path_join, path_parent, path_with_extension, with_extension};
use crate::text::strs;

verus! {

/// The paths tried for `spec` imported from `importer`: the joined path as
/// written, with a `js` and a `ts` extension, and its `index.js` and
/// `index.ts`. `None` when the importer has no parent directory.
pub open spec fn candidates_for(spec: Seq<char>, importer: Seq<char>) -> Option<Seq<Seq<char>>> {
    match path_parent(importer) {
        None => None,
        Some(dir) => {
            let base = path_join(dir, spec);
            Some(
                seq![
                    base,
                    path_with_extension(base, "js"@),
                    path_with_extension(base, "ts"@),
                    path_join(base, "index.js"@),
                    path_join(base, "index.ts"@),
                ],
            )
        },
    }
}

/// The candidate paths for `spec` imported from `importer`, in the order they are tried.
pub fn resolve_candidates(spec: &str, importer: &str) -> (r: Option<Vec<String>>)
    ensures
        match r {
            Some(c) => candidates_for(spec@, importer@) == Some(strs(c@)),
            None => candidates_for(spec@, importer@) is None,
        },
{
    let dir = match parent_of(importer) {
        Some(d) => d,
        None => return None,
    };
    let base = join_path(dir.as_str(), spec);
    proof {
        reveal_strlit("js");
        reveal_strlit("ts");
    }
    let js = with_extension(base.as_str(), "js");
    let ts = with_extension(base.as_str(), "ts");
    let index_js = join_path(base.as_str(), "index.js");
    let index_ts = join_path(base.as_str(), "index.ts");
    let mut c: Vec<String> = Vec::new();
    c.push(base);
    c.push(js);
    c.push(ts);
    c.push(index_js);
    c.push(index_ts);
    assert(strs(c@) =~= candidates_for(spec@, importer@).unwrap());
    Some(c)
}

/// Position of the first `true` in `flags`, or `flags.len()`.
pub open spec fn first_true(flags: Seq<bool>) -> int
    decreases flags.len(),
{
    if flags.len() == 0 {
        0
    } else if flags[0] {
        0
    } else {
        1 + first_true(flags.drop_first())
    }
}

/// `first_true` is the position of the first `true`: it lies in
/// `0..=flags.len()`, it is below the length exactly when some flag is true,
/// the flag there is true, and every flag before it is false.
pub proof fn lemma_first_true(flags: Seq<bool>)
    ensures
        0 <= first_true(flags) <= flags.len(),
        first_true(flags) < flags.len() <==> flags.contains(true),
        first_true(flags) < flags.len() ==> flags[first_true(flags)],
        forall|j: int| 0 <= j < first_true(flags) ==> !#[trigger] flags[j],
    decreases flags.len(),
{
    if flags.len() > 0 && !flags[0] {
        let rest = flags.drop_first();
        lemma_first_true(rest);
        assert forall|j: int| 0 <= j < first_true(flags) implies !#[trigger] flags[j] by {
            if j > 0 {
                assert(flags[j] == rest[j - 1]);
            }
        }
        if flags.contains(true) {
            let t = choose|t: int| 0 <= t < flags.len() && flags[t] == true;
            assert(rest[t - 1] == flags[t]);
        }
        if rest.contains(true) {
            let t = choose|t: int| 0 <= t < rest.len() && rest[t] == true;
            assert(flags[t + 1] == rest[t]);
        }
    } else if flags.len() > 0 {
        assert(flags.contains(true)) by {
            assert(flags[0] == true);
        }
    }
}

/// The candidates for an import, whenever the importer has a parent
/// directory: five paths, the first being the specifier joined to that
/// directory as written, then that path with a `js` and with a `ts`
/// extension, then its `index.js` and its `index.ts`.
pub proof fn lemma_candidates(spec: Seq<char>, importer: Seq<char>)
    ensures
        candidates_for(spec, importer) is Some <==> path_parent(importer) is Some,
        path_parent(importer) matches Some(dir) ==> {
            let c = candidates_for(spec, importer).unwrap();
            let base = path_join(dir, spec);
            &&& c.len() == 5
            &&& c[0] == base
            &&& c[1] == path_with_extension(base, "js"@)
            &&& c[2] == path_with_extension(base, "ts"@)
            &&& c[3] == path_join(base, "index.js"@)
            &&& c[4] == path_join(base, "index.ts"@)
        },
{
}

/// The first candidate that is a file, given whether each one is a file.
pub fn pick_candidate(candidates: Vec<String>, is_file: &Vec<bool>) -> (r: Option<String>)
    requires
        candidates.len() == is_file.len(),
    ensures
        first_true(is_file@) < is_file@.len() ==> r is Some && r.unwrap()@ == candidates@[first_true(is_file@)]@,
        first_true(is_file@) >= is_file@.len() ==> r is None,
{
    let mut i: usize = 0;
    assert(is_file@.skip(0) =~= is_file@);
    while i < is_file.len()
        invariant
            i <= is_file.len(),
            candidates.len() == is_file.len(),
            first_true(is_file@) == i + first_true(is_file@.skip(i as int)),
        decreases is_file.len() - i,
    {
        if is_file[i] {
            return Some(candidates[i].clone());
        }
        assert(is_file@.skip(i as int).drop_first() =~= is_file@.skip(i + 1));
        i += 1;
    }
    None
}

} // verus!
