//! The scanner's decision logic: which walked paths become candidates for
//! classification. Walking the filesystem happens outside the library; the
//! exclusion rules — the root itself, hidden entries, the state file, and
//! every path already recorded in the store — are decided here, over
//! separator-normalized path strings.
use vstd::prelude::*;

use crate::models::view_string_seq;
use crate::text::str_eq;

verus! {

/// The name of the state file kept directly under the scanned root.
pub const DB_NAME: &'static str = ".fs_organizer.db";

/// The part of a path after its last `/`: the whole path when it has no
/// separator, empty when it ends in one.
pub open spec fn after_last_slash(p: Seq<char>) -> Seq<char>
    decreases p.len(),
{
    if p.len() == 0 {
        p
    } else if p.last() == '/' {
        Seq::empty()
    } else {
        after_last_slash(p.drop_last()).push(p.last())
    }
}

proof fn lemma_after_last_slash_no_slash(p: Seq<char>)
    requires
        forall|j: int| 0 <= j < p.len() ==> p[j] != '/',
    ensures
        after_last_slash(p) =~= p,
    decreases p.len(),
{
    if p.len() > 0 {
        lemma_after_last_slash_no_slash(p.drop_last());
    }
}

proof fn lemma_after_last_slash_at(p: Seq<char>, k: int)
    requires
        0 <= k < p.len(),
        p[k] == '/',
        forall|j: int| k < j < p.len() ==> p[j] != '/',
    ensures
        after_last_slash(p) =~= p.subrange(k + 1, p.len() as int),
    decreases p.len(),
{
    if k == p.len() - 1 {
    } else {
        lemma_after_last_slash_at(p.drop_last(), k);
        assert(p.drop_last().subrange(k + 1, p.len() - 1) =~= p.subrange(k + 1, p.len() - 1));
    }
}

/// The final path component, as a fresh string.
pub fn file_name_of(path: &str) -> (r: String)
    ensures
        r@ == after_last_slash(path@),
{
    let n = path.unicode_len();
    let mut last_slash: Option<usize> = None;
    for i in 0..n
        invariant
            n == path@.len(),
            match last_slash {
                Some(k) => k < i && path@[k as int] == '/' && forall|j: int|
                    k < j < i ==> path@[j] != '/',
                None => forall|j: int| 0 <= j < i ==> path@[j] != '/',
            },
    {
        if path.get_char(i) == '/' {
            last_slash = Some(i);
        }
    }
    match last_slash {
        Some(k) => {
            proof {
                lemma_after_last_slash_at(path@, k as int);
            }
            let tail = path.substring_char(k + 1, n);
            tail.to_owned()
        },
        None => {
            proof {
                lemma_after_last_slash_no_slash(path@);
            }
            path.to_owned()
        },
    }
}

/// A hidden entry: its name starts with a dot.
pub open spec fn spec_hidden(name: Seq<char>) -> bool {
    name.len() > 0 && name[0] == '.'
}

/// Whether a walked path is a candidate: not the root itself, not a hidden
/// entry, not the state file, and not already recorded in the store.
pub open spec fn spec_should_emit(
    path: Seq<char>,
    root: Seq<char>,
    processed: Seq<Seq<char>>,
) -> bool {
    &&& path != root
    &&& !spec_hidden(after_last_slash(path))
    &&& after_last_slash(path) != DB_NAME@
    &&& !processed.contains(path)
}

fn contains_path(processed: &Vec<String>, path: &str) -> (r: bool)
    ensures
        r == view_string_seq(processed@).contains(path@),
{
    let ghost m = view_string_seq(processed@);
    let n = processed.len();
    for i in 0..n
        invariant
            n == processed@.len(),
            m == view_string_seq(processed@),
            m.len() == n,
            forall|j: int| 0 <= j < i ==> m[j] != path@,
    {
        proof {
            assert(m[i as int] == processed@[i as int]@);
        }
        if str_eq(processed[i].as_str(), path) {
            proof {
                assert(m.contains(path@));
            }
            return true;
        }
    }
    false
}

/// Decide whether one walked path is a candidate.
pub fn should_emit(path: &str, root: &str, processed: &Vec<String>) -> (r: bool)
    ensures
        r == spec_should_emit(path@, root@, view_string_seq(processed@)),
{
    if str_eq(path, root) {
        return false;
    }
    let name = file_name_of(path);
    if name.as_str().unicode_len() > 0 && name.as_str().get_char(0) == '.' {
        return false;
    }
    if str_eq(name.as_str(), DB_NAME) {
        return false;
    }
    !contains_path(processed, path)
}

/// The candidates among the walked paths, in walk order.
pub open spec fn candidates_of(
    paths: Seq<Seq<char>>,
    root: Seq<char>,
    processed: Seq<Seq<char>>,
) -> Seq<Seq<char>> {
    paths.filter(|p: Seq<char>| spec_should_emit(p, root, processed))
}

proof fn lemma_candidates_step(
    paths: Seq<Seq<char>>,
    root: Seq<char>,
    processed: Seq<Seq<char>>,
    i: int,
)
    requires
        0 <= i < paths.len(),
    ensures
        candidates_of(paths.subrange(0, i + 1), root, processed) == if spec_should_emit(
            paths[i],
            root,
            processed,
        ) {
            candidates_of(paths.subrange(0, i), root, processed).push(paths[i])
        } else {
            candidates_of(paths.subrange(0, i), root, processed)
        },
{
    let nextseq = paths.subrange(0, i + 1);
    assert(nextseq.drop_last() =~= paths.subrange(0, i));
    assert(nextseq.last() == paths[i]);
    reveal_with_fuel(Seq::filter, 2);
}

/// Keep exactly the walked paths that are candidates, in walk order.
pub fn filter_candidates(paths: &Vec<String>, root: &str, processed: &Vec<String>) -> (r: Vec<
    String,
>)
    ensures
        view_string_seq(r@) =~= candidates_of(
            view_string_seq(paths@),
            root@,
            view_string_seq(processed@),
        ),
{
    let ghost pathsv = view_string_seq(paths@);
    let ghost processedv = view_string_seq(processed@);
    let n = paths.len();
    let mut out: Vec<String> = Vec::new();
    proof {
        assert(view_string_seq(out@) =~= candidates_of(pathsv.subrange(0, 0), root@, processedv));
    }
    for i in 0..n
        invariant
            n == paths@.len(),
            pathsv == view_string_seq(paths@),
            processedv == view_string_seq(processed@),
            pathsv.len() == n,
            view_string_seq(out@) =~= candidates_of(
                pathsv.subrange(0, i as int),
                root@,
                processedv,
            ),
    {
        let ghost prev = out@;
        proof {
            assert(pathsv[i as int] == paths@[i as int]@);
        }
        if should_emit(paths[i].as_str(), root, processed) {
            out.push(paths[i].clone());
            proof {
                assert(out@ == prev.push(paths@[i as int]));
                crate::models::lemma_view_string_seq_push(prev, paths@[i as int]);
            }
        }
        proof {
            lemma_candidates_step(pathsv, root@, processedv, i as int);
            assert(view_string_seq(out@) =~= candidates_of(
                pathsv.subrange(0, i as int + 1),
                root@,
                processedv,
            ));
        }
    }
    proof {
        assert(pathsv.subrange(0, n as int) =~= pathsv);
    }
    out
}

proof fn lemma_candidates_are_emittable(
    paths: Seq<Seq<char>>,
    root: Seq<char>,
    processed: Seq<Seq<char>>,
    p: Seq<char>,
)
    requires
        candidates_of(paths, root, processed).contains(p),
    ensures
        spec_should_emit(p, root, processed),
    decreases paths.len(),
{
    reveal_with_fuel(Seq::filter, 2);
    if paths.len() > 0 {
        let sub = candidates_of(paths.drop_last(), root, processed);
        if spec_should_emit(paths.last(), root, processed) {
            let whole = sub.push(paths.last());
            let k = choose|k: int| 0 <= k < whole.len() && whole[k] == p;
            if k < sub.len() {
                assert(sub.contains(p));
                lemma_candidates_are_emittable(paths.drop_last(), root, processed, p);
            }
        } else {
            lemma_candidates_are_emittable(paths.drop_last(), root, processed, p);
        }
    }
}

/// Resumability: a path the store has already recorded is never among the
/// candidates of a later scan, whatever the walked paths and the root.
pub proof fn lemma_processed_never_reemitted(
    paths: Seq<Seq<char>>,
    root: Seq<char>,
    processed: Seq<Seq<char>>,
    p: Seq<char>,
)
    requires
        processed.contains(p),
    ensures
        !candidates_of(paths, root, processed).contains(p),
{
    if candidates_of(paths, root, processed).contains(p) {
        lemma_candidates_are_emittable(paths, root, processed, p);
    }
}

/// How many children of a scanned directory are sampled at most.
pub const SAMPLE_SIZE: usize = 20;

/// The sample a directory listing yields: its children in listing order,
/// hidden ones skipped, capped at the sample size.
pub open spec fn spec_sample(
    children: Seq<crate::models::SampledItemV>,
) -> Seq<crate::models::SampledItemV> {
    let visible = children.filter(|c: crate::models::SampledItemV| !spec_hidden(c.name));
    if visible.len() <= SAMPLE_SIZE {
        visible
    } else {
        visible.subrange(0, SAMPLE_SIZE as int)
    }
}

proof fn lemma_visible_step(children: Seq<crate::models::SampledItemV>, i: int)
    requires
        0 <= i < children.len(),
    ensures
        children.subrange(0, i + 1).filter(
            |c: crate::models::SampledItemV| !spec_hidden(c.name),
        ) == if !spec_hidden(children[i].name) {
            children.subrange(0, i).filter(
                |c: crate::models::SampledItemV| !spec_hidden(c.name),
            ).push(children[i])
        } else {
            children.subrange(0, i).filter(|c: crate::models::SampledItemV| !spec_hidden(c.name))
        },
{
    let nextseq = children.subrange(0, i + 1);
    assert(nextseq.drop_last() =~= children.subrange(0, i));
    assert(nextseq.last() == children[i]);
    reveal_with_fuel(Seq::filter, 2);
}

/// Keep the sampled children a directory contributes to its record: hidden
/// entries are skipped, and at most the sample size are kept, in listing
/// order.
pub fn sample_children(children: Vec<crate::models::SampledItem>) -> (r: Vec<
    crate::models::SampledItem,
>)
    ensures
        crate::models::view_samples(r@) =~= spec_sample(crate::models::view_samples(children@)),
{
    let ghost childrenv = crate::models::view_samples(children@);
    let ghost visible = childrenv.filter(|c: crate::models::SampledItemV| !spec_hidden(c.name));
    let n = children.len();
    let mut out: Vec<crate::models::SampledItem> = Vec::new();
    proof {
        assert(crate::models::view_samples(out@) =~= childrenv.subrange(0, 0).filter(
            |c: crate::models::SampledItemV| !spec_hidden(c.name),
        )) by {
            reveal_with_fuel(Seq::filter, 1);
            assert(childrenv.subrange(0, 0).len() == 0);
        }
    }
    for i in 0..n
        invariant
            n == children@.len(),
            childrenv == crate::models::view_samples(children@),
            childrenv.len() == n,
            visible == childrenv.filter(|c: crate::models::SampledItemV| !spec_hidden(c.name)),
            out@.len() <= SAMPLE_SIZE,
            crate::models::view_samples(out@) =~= (if childrenv.subrange(0, i as int).filter(
                |c: crate::models::SampledItemV| !spec_hidden(c.name),
            ).len() <= SAMPLE_SIZE {
                childrenv.subrange(0, i as int).filter(
                    |c: crate::models::SampledItemV| !spec_hidden(c.name),
                )
            } else {
                childrenv.subrange(0, i as int).filter(
                    |c: crate::models::SampledItemV| !spec_hidden(c.name),
                ).subrange(0, SAMPLE_SIZE as int)
            }),
    {
        let ghost prevvis = childrenv.subrange(0, i as int).filter(
            |c: crate::models::SampledItemV| !spec_hidden(c.name),
        );
        proof {
            lemma_visible_step(childrenv, i as int);
            assert(childrenv[i as int] == children@[i as int]@);
        }
        let name = &children[i].name;
        let hidden = name.as_str().unicode_len() > 0 && name.as_str().get_char(0) == '.';
        if !hidden && out.len() < SAMPLE_SIZE {
            let ghost prev = out@;
            let child = children[i].clone();
            let ghost childg = child;
            out.push(child);
            proof {
                assert(out@ == prev.push(childg));
                assert forall|j: int|
                    0 <= j < prev.len() + 1 implies crate::models::view_samples(out@)[j]
                    == crate::models::view_samples(prev).push(childg@)[j] by {
                    if j < prev.len() {
                        assert(crate::models::view_samples(prev)[j] == prev[j]@);
                    }
                }
                assert(crate::models::view_samples(out@) =~= crate::models::view_samples(
                    prev,
                ).push(childg@));
                assert(prevvis.push(childg@).subrange(0, prevvis.len() as int) =~= prevvis);
            }
        } else {
            proof {
                if !hidden {
                    assert(prevvis.push(childrenv[i as int]).subrange(0, SAMPLE_SIZE as int)
                        =~= prevvis.subrange(0, SAMPLE_SIZE as int));
                }
            }
        }
    }
    proof {
        assert(childrenv.subrange(0, n as int) =~= childrenv);
    }
    out
}

} // verus!