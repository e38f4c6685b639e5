//! The crate-wide guarantees stated in one place: where query results come
//! from, what removal purges, and how adding and removing records compose.

use vstd::prelude::*;
use crate::types::{TreeNodeView, FunctionSignatureView, FunctionCallView};
use crate::matching::{matches_spec, matches_rest, tier_of};
use crate::repo_map::{
    RepoMap, paths_unique, has_path, path_index, remove_path, files_after_add, found_functions,
    found_structs, fns_matching, fns_matching_in, fn_matches, callsites_for, callsites_in,
    take_up_to, total_functions_of, total_structs_of, total_imports_of, total_exports_of,
    clamp_usize, lemma_path_index_bounds, lemma_remove_path_not_found, lemma_remove_path_unique,
};

verus! {

/// The metadata counters always equal the (clamped) sums over the records:
/// for every well-formed index, `total_functions` is the sum of the
/// function-list lengths, and likewise for structs, imports and exports.
pub proof fn lemma_metadata_totals(m: &RepoMap)
    requires
        m.wf(),
    ensures
        m.metadata.total_files == m@.len(),
        m.metadata.total_functions as int == clamp_usize(total_functions_of(m@) as int),
        m.metadata.total_structs as int == clamp_usize(total_structs_of(m@) as int),
        m.metadata.total_imports as int == clamp_usize(total_imports_of(m@) as int),
        m.metadata.total_exports as int == clamp_usize(total_exports_of(m@) as int),
{
}

proof fn lemma_fns_matching_in_member_at(
    fns: Seq<FunctionSignatureView>,
    pattern: Seq<char>,
    tier: int,
    k: int,
)
    requires
        0 <= k < fns_matching_in(fns, pattern, tier).len(),
    ensures
        exists|j: int|
            0 <= j < fns.len() && fns[j] == fns_matching_in(fns, pattern, tier)[k] && fn_matches(
                fns[j],
                pattern,
                tier,
            ),
    decreases fns.len(),
{
    let m = fns_matching_in(fns.drop_last(), pattern, tier);
    if k < m.len() {
        lemma_fns_matching_in_member_at(fns.drop_last(), pattern, tier, k);
        let j = choose|j: int|
            0 <= j < fns.drop_last().len() && fns.drop_last()[j] == m[k] && fn_matches(
                fns.drop_last()[j],
                pattern,
                tier,
            );
        assert(fns[j] == fns.drop_last()[j]);
        assert(fns_matching_in(fns, pattern, tier)[k] == m[k]);
        assert(0 <= j < fns.len() && fns[j] == fns_matching_in(fns, pattern, tier)[k]
            && fn_matches(fns[j], pattern, tier));
    } else {
        let j = fns.len() - 1;
        assert(fns_matching_in(fns, pattern, tier)[k] == fns[j]);
        assert(0 <= j < fns.len() && fns[j] == fns_matching_in(fns, pattern, tier)[k]
            && fn_matches(fns[j], pattern, tier));
    }
}

proof fn lemma_fns_matching_member_at(
    files: Seq<TreeNodeView>,
    pattern: Seq<char>,
    tier: int,
    k: int,
)
    requires
        0 <= k < fns_matching(files, pattern, tier).len(),
    ensures
        exists|i: int, j: int|
            0 <= i < files.len() && 0 <= j < files[i].functions.len() && files[i].functions[j]
                == fns_matching(files, pattern, tier)[k] && fn_matches(
                files[i].functions[j],
                pattern,
                tier,
            ),
    decreases files.len(),
{
    let m = fns_matching(files.drop_last(), pattern, tier);
    let t = fns_matching_in(files.last().functions, pattern, tier);
    if k < m.len() {
        lemma_fns_matching_member_at(files.drop_last(), pattern, tier, k);
        let (i, j) = choose|i: int, j: int|
            0 <= i < files.drop_last().len() && 0 <= j < files.drop_last()[i].functions.len()
                && files.drop_last()[i].functions[j] == m[k] && fn_matches(
                files.drop_last()[i].functions[j],
                pattern,
                tier,
            );
        assert(files[i] == files.drop_last()[i]);
        assert(fns_matching(files, pattern, tier)[k] == m[k]);
        assert(0 <= i < files.len() && 0 <= j < files[i].functions.len() && files[i].functions[j]
            == fns_matching(files, pattern, tier)[k] && fn_matches(
            files[i].functions[j],
            pattern,
            tier,
        ));
    } else {
        assert(fns_matching(files, pattern, tier)[k] == t[k - m.len()]);
        lemma_fns_matching_in_member_at(files.last().functions, pattern, tier, k - m.len());
        let j = choose|j: int|
            0 <= j < files.last().functions.len() && files.last().functions[j] == t[k - m.len()]
                && fn_matches(files.last().functions[j], pattern, tier);
        let i = files.len() - 1;
        assert(files[i] == files.last());
        assert(0 <= i < files.len() && 0 <= j < files[i].functions.len() && files[i].functions[j]
            == fns_matching(files, pattern, tier)[k] && fn_matches(
            files[i].functions[j],
            pattern,
            tier,
        ));
    }
}

/// A tier the answers list a name in is a tier the policy accepts it in.
proof fn lemma_tier_matches(name: Seq<char>, pattern: Seq<char>, tier: int)
    requires
        1 <= tier <= 3,
        tier_of(name, pattern) == tier,
    ensures
        matches_spec(name, pattern),
{
}

/// Every function a query answers is a function of one of the records
/// present when the query ran, and its name answers the pattern.
pub proof fn lemma_found_functions_membership(files: Seq<TreeNodeView>, pattern: Seq<char>, k: int)
    requires
        0 <= k < found_functions(files, pattern).len(),
    ensures
        exists|i: int, j: int|
            0 <= i < files.len() && 0 <= j < files[i].functions.len() && files[i].functions[j]
                == found_functions(files, pattern)[k] && matches_spec(
                files[i].functions[j].name,
                pattern,
            ),
{
    let t1 = fns_matching(files, pattern, 1);
    let t2 = fns_matching(files, pattern, 2);
    let t3 = fns_matching(files, pattern, 3);
    let (tier, kk) = if k < t1.len() {
        (1int, k)
    } else if k < t1.len() + t2.len() {
        (2int, k - t1.len())
    } else {
        (3int, k - t1.len() - t2.len())
    };
    assert(found_functions(files, pattern)[k] == fns_matching(files, pattern, tier)[kk]);
    lemma_fns_matching_member_at(files, pattern, tier, kk);
    let (i, j) = choose|i: int, j: int|
        0 <= i < files.len() && 0 <= j < files[i].functions.len() && files[i].functions[j]
            == fns_matching(files, pattern, tier)[kk] && fn_matches(
            files[i].functions[j],
            pattern,
            tier,
        );
    lemma_tier_matches(files[i].functions[j].name, pattern, tier);
    assert(0 <= i < files.len() && 0 <= j < files[i].functions.len() && files[i].functions[j]
        == found_functions(files, pattern)[k] && matches_spec(
        files[i].functions[j].name,
        pattern,
    ));
}

proof fn lemma_callsites_in_path_at(
    node: TreeNodeView,
    calls: Seq<FunctionCallView>,
    name: Seq<char>,
    k: int,
)
    requires
        0 <= k < callsites_in(node, calls, name).len(),
    ensures
        callsites_in(node, calls, name)[k].file_path == node.file_path,
    decreases calls.len(),
{
    let m = callsites_in(node, calls.drop_last(), name);
    if k < m.len() {
        lemma_callsites_in_path_at(node, calls.drop_last(), name, k);
    }
}

proof fn lemma_callsites_for_path_at(files: Seq<TreeNodeView>, name: Seq<char>, k: int)
    requires
        0 <= k < callsites_for(files, name).len(),
    ensures
        exists|i: int|
            0 <= i < files.len() && files[i].file_path == callsites_for(files, name)[k].file_path,
    decreases files.len(),
{
    let m = callsites_for(files.drop_last(), name);
    if k < m.len() {
        lemma_callsites_for_path_at(files.drop_last(), name, k);
        let i = choose|i: int|
            0 <= i < files.drop_last().len() && files.drop_last()[i].file_path == m[k].file_path;
        assert(files[i] == files.drop_last()[i]);
        assert(callsites_for(files, name)[k] == m[k]);
        assert(0 <= i < files.len() && files[i].file_path == callsites_for(
            files,
            name,
        )[k].file_path);
    } else {
        lemma_callsites_in_path_at(files.last(), files.last().function_calls, name, k - m.len());
        let i = files.len() - 1;
        assert(files[i] == files.last());
        assert(0 <= i < files.len() && files[i].file_path == callsites_for(
            files,
            name,
        )[k].file_path);
    }
}

/// After removing the record at `path` from a well-formed index, no call
/// site attributable to that path can come out of a caller query.
pub proof fn lemma_remove_purges_callsites(
    files: Seq<TreeNodeView>,
    path: Seq<char>,
    name: Seq<char>,
    k: int,
)
    requires
        paths_unique(files),
        0 <= k < callsites_for(remove_path(files, path), name).len(),
    ensures
        callsites_for(remove_path(files, path), name)[k].file_path != path,
{
    let r = remove_path(files, path);
    lemma_remove_path_unique(files, path);
    lemma_path_index_bounds(r, path);
    lemma_callsites_for_path_at(r, name, k);
    let i = choose|i: int|
        0 <= i < r.len() && r[i].file_path == callsites_for(r, name)[k].file_path;
    assert(r[i].file_path != path);
}

proof fn lemma_remove_push_absent(files: Seq<TreeNodeView>, f: TreeNodeView, path: Seq<char>)
    requires
        !has_path(files, path),
        f.file_path == path,
    ensures
        remove_path(files.push(f), path) == files,
    decreases files.len(),
{
    lemma_path_index_bounds(files, path);
    if files.len() == 0 {
        assert(files.push(f)[0] == f);
        assert(remove_path(files.push(f), path) =~= files);
    } else {
        assert(files.push(f)[0] == files[0]);
        assert(files[0].file_path != path);
        assert(files.push(f).drop_first() =~= files.drop_first().push(f));
        assert(path_index(files.drop_first(), path) < 0);
        lemma_remove_push_absent(files.drop_first(), f, path);
        assert(remove_path(files.push(f), path) =~= seq![files[0]] + files.drop_first());
        assert(seq![files[0]] + files.drop_first() =~= files);
    }
}

/// Adding the same record twice leaves the same records as adding it once:
/// `add_file` is idempotent.
pub proof fn lemma_add_idempotent(files: Seq<TreeNodeView>, f: TreeNodeView)
    requires
        paths_unique(files),
    ensures
        files_after_add(files_after_add(files, f), f) == files_after_add(files, f),
{
    let r = remove_path(files, f.file_path);
    lemma_remove_path_unique(files, f.file_path);
    lemma_remove_push_absent(r, f, f.file_path);
}

/// Adding a record of a fresh path and then removing that path restores
/// the records exactly; with them every derived counter and every query
/// answer is restored.
pub proof fn lemma_add_remove_round_trip(files: Seq<TreeNodeView>, f: TreeNodeView)
    requires
        paths_unique(files),
        !has_path(files, f.file_path),
    ensures
        remove_path(files_after_add(files, f), f.file_path) == files,
{
    lemma_remove_path_not_found(files, f.file_path);
    lemma_remove_push_absent(files, f, f.file_path);
}

/// Every metadata field the clock does not set is a function of the
/// records (and the untouched cache counters): with the records restored,
/// the metadata is restored, `last_updated` aside.
pub proof fn lemma_metadata_from_records(m1: &RepoMap, m2: &RepoMap)
    requires
        m1.wf(),
        m2.wf(),
        m1@ == m2@,
        m1.metadata.cache_hits == m2.metadata.cache_hits,
        m1.metadata.cache_misses == m2.metadata.cache_misses,
    ensures
        m1.metadata.total_files == m2.metadata.total_files,
        m1.metadata.total_functions == m2.metadata.total_functions,
        m1.metadata.total_structs == m2.metadata.total_structs,
        m1.metadata.total_imports == m2.metadata.total_imports,
        m1.metadata.total_exports == m2.metadata.total_exports,
        m1.metadata.memory_usage_bytes == m2.metadata.memory_usage_bytes,
        crate::repo_map::strings_view(m1.metadata.languages@) == crate::repo_map::strings_view(
            m2.metadata.languages@,
        ),
{
}

/// Query answers are functions of the records and the query alone: two
/// indexes holding the same records answer every query alike, whatever
/// their caches, counters or configuration hold.
pub proof fn lemma_queries_pure(m1: &RepoMap, m2: &RepoMap, pattern: Seq<char>, name: Seq<char>)
    requires
        m1@ == m2@,
    ensures
        found_functions(m1@, pattern) == found_functions(m2@, pattern),
        found_structs(m1@, pattern) == found_structs(m2@, pattern),
        callsites_for(m1@, name) == callsites_for(m2@, name),
{
}

proof fn lemma_exact_named_at(files: Seq<TreeNodeView>, pattern: Seq<char>, k: int)
    requires
        0 <= k < fns_matching(files, pattern, 1).len(),
    ensures
        fns_matching(files, pattern, 1)[k].name == pattern,
{
    lemma_fns_matching_member_at(files, pattern, 1, k);
    let (i, j) = choose|i: int, j: int|
        0 <= i < files.len() && 0 <= j < files[i].functions.len() && files[i].functions[j]
            == fns_matching(files, pattern, 1)[k] && fn_matches(
            files[i].functions[j],
            pattern,
            1,
        );
}

proof fn lemma_fns_matching_in_witness(
    fns: Seq<FunctionSignatureView>,
    pattern: Seq<char>,
    tier: int,
    j: int,
)
    requires
        0 <= j < fns.len(),
        fn_matches(fns[j], pattern, tier),
    ensures
        fns_matching_in(fns, pattern, tier).len() > 0,
    decreases fns.len(),
{
    if j < fns.len() - 1 {
        assert(fns.drop_last()[j] == fns[j]);
        lemma_fns_matching_in_witness(fns.drop_last(), pattern, tier, j);
    }
}

proof fn lemma_fns_matching_witness(
    files: Seq<TreeNodeView>,
    pattern: Seq<char>,
    tier: int,
    i: int,
    j: int,
)
    requires
        0 <= i < files.len(),
        0 <= j < files[i].functions.len(),
        fn_matches(files[i].functions[j], pattern, tier),
    ensures
        fns_matching(files, pattern, tier).len() > 0,
    decreases files.len(),
{
    if i < files.len() - 1 {
        assert(files.drop_last()[i] == files[i]);
        lemma_fns_matching_witness(files.drop_last(), pattern, tier, i, j);
    } else {
        assert(files.last() == files[i]);
        lemma_fns_matching_in_witness(files[i].functions, pattern, tier, j);
    }
}

/// When some function bears exactly the queried name, the query answers
/// only functions of that name, starting with one: each answered item `k`
/// is named `pattern`, and there is at least one.
pub proof fn lemma_exact_match_first(
    files: Seq<TreeNodeView>,
    pattern: Seq<char>,
    i: int,
    j: int,
)
    requires
        0 <= i < files.len(),
        0 <= j < files[i].functions.len(),
        files[i].functions[j].name == pattern,
    ensures
        found_functions(files, pattern).len() > 0,
        found_functions(files, pattern)[0].name == pattern,
{
    assert(fn_matches(files[i].functions[j], pattern, 1));
    lemma_fns_matching_witness(files, pattern, 1, i, j);
    assert(found_functions(files, pattern)[0] == fns_matching(files, pattern, 1)[0]);
    lemma_exact_named_at(files, pattern, 0);
}

/// A zero limit answers no items, whatever would have matched.
pub proof fn lemma_limit_zero(files: Seq<TreeNodeView>, pattern: Seq<char>)
    ensures
        take_up_to(found_functions(files, pattern), 0).len() == 0,
        take_up_to(found_structs(files, pattern), 0).len() == 0,
{
}

/// All functions of all records, in storage order.
pub open spec fn all_functions(files: Seq<TreeNodeView>) -> Seq<FunctionSignatureView>
    decreases files.len(),
{
    if files.len() == 0 {
        Seq::empty()
    } else {
        all_functions(files.drop_last()) + files.last().functions
    }
}

proof fn lemma_tier_partition_in(fns: Seq<FunctionSignatureView>, pattern: Seq<char>)
    requires
        forall|j: int|
            0 <= j < fns.len() ==> tier_of((#[trigger] fns[j]).name, pattern) != 0,
    ensures
        (fns_matching_in(fns, pattern, 1) + fns_matching_in(fns, pattern, 2) + fns_matching_in(
            fns,
            pattern,
            3,
        )).to_multiset() == fns.to_multiset(),
    decreases fns.len(),
{
    broadcast use vstd::seq_lib::group_to_multiset_ensures;
    broadcast use vstd::multiset::group_multiset_axioms;

    let t1 = fns_matching_in(fns, pattern, 1);
    let t2 = fns_matching_in(fns, pattern, 2);
    let t3 = fns_matching_in(fns, pattern, 3);
    if fns.len() == 0 {
        assert(t1 + t2 + t3 =~= Seq::<FunctionSignatureView>::empty());
        assert((t1 + t2 + t3).to_multiset() =~= fns.to_multiset());
    } else {
        let rest = fns.drop_last();
        let l = fns.last();
        assert(forall|j: int|
            0 <= j < rest.len() ==> tier_of((#[trigger] rest[j]).name, pattern) != 0) by {
            assert(forall|j: int| 0 <= j < rest.len() ==> rest[j] == fns[j]);
        }
        lemma_tier_partition_in(rest, pattern);
        let r1 = fns_matching_in(rest, pattern, 1);
        let r2 = fns_matching_in(rest, pattern, 2);
        let r3 = fns_matching_in(rest, pattern, 3);
        vstd::seq_lib::lemma_multiset_commutative(t1 + t2, t3);
        vstd::seq_lib::lemma_multiset_commutative(t1, t2);
        vstd::seq_lib::lemma_multiset_commutative(r1 + r2, r3);
        vstd::seq_lib::lemma_multiset_commutative(r1, r2);
        assert(fns[fns.len() - 1] == l);
        assert(tier_of(l.name, pattern) != 0);
        if tier_of(l.name, pattern) == 1 {
            assert(t1 =~= r1.push(l));
            assert(t2 =~= r2);
            assert(t3 =~= r3);
            assert(t1.to_multiset() =~= r1.to_multiset().insert(l));
        } else if tier_of(l.name, pattern) == 2 {
            assert(t1 =~= r1);
            assert(t2 =~= r2.push(l));
            assert(t3 =~= r3);
            assert(t2.to_multiset() =~= r2.to_multiset().insert(l));
        } else {
            assert(tier_of(l.name, pattern) == 3);
            assert(t1 =~= r1);
            assert(t2 =~= r2);
            assert(t3 =~= r3.push(l));
            assert(t3.to_multiset() =~= r3.to_multiset().insert(l));
        }
        assert((t1 + t2 + t3).to_multiset() =~= (r1 + r2 + r3).to_multiset().insert(l));
        assert(fns =~= rest.push(l));
        assert(fns.to_multiset() =~= rest.to_multiset().insert(l));
        assert((t1 + t2 + t3).to_multiset() =~= fns.to_multiset());
    }
}

proof fn lemma_tier_partition(files: Seq<TreeNodeView>, pattern: Seq<char>)
    requires
        forall|i: int, j: int|
            0 <= i < files.len() && 0 <= j < (#[trigger] files[i]).functions.len()
                ==> tier_of((#[trigger] files[i].functions[j]).name, pattern) != 0,
    ensures
        found_functions(files, pattern).to_multiset() == all_functions(files).to_multiset(),
    decreases files.len(),
{
    broadcast use vstd::seq_lib::group_to_multiset_ensures;
    broadcast use vstd::multiset::group_multiset_axioms;

    let t1 = fns_matching(files, pattern, 1);
    let t2 = fns_matching(files, pattern, 2);
    let t3 = fns_matching(files, pattern, 3);
    if files.len() == 0 {
        assert(t1 + t2 + t3 =~= Seq::<FunctionSignatureView>::empty());
        assert(all_functions(files) =~= Seq::<FunctionSignatureView>::empty());
        assert(found_functions(files, pattern).to_multiset() =~= all_functions(
            files,
        ).to_multiset());
    } else {
        let rest = files.drop_last();
        let lf = files.last().functions;
        assert(forall|i: int, j: int|
            0 <= i < rest.len() && 0 <= j < (#[trigger] rest[i]).functions.len() ==> tier_of(
                (#[trigger] rest[i].functions[j]).name,
                pattern,
            ) != 0) by {
            assert(forall|i: int| 0 <= i < rest.len() ==> rest[i] == files[i]);
        }
        lemma_tier_partition(rest, pattern);
        assert(forall|j: int|
            0 <= j < lf.len() ==> tier_of((#[trigger] lf[j]).name, pattern) != 0) by {
            assert(files[files.len() - 1] == files.last());
        }
        lemma_tier_partition_in(lf, pattern);
        let r1 = fns_matching(rest, pattern, 1);
        let r2 = fns_matching(rest, pattern, 2);
        let r3 = fns_matching(rest, pattern, 3);
        let l1 = fns_matching_in(lf, pattern, 1);
        let l2 = fns_matching_in(lf, pattern, 2);
        let l3 = fns_matching_in(lf, pattern, 3);
        assert(t1 == r1 + l1);
        assert(t2 == r2 + l2);
        assert(t3 == r3 + l3);
        vstd::seq_lib::lemma_multiset_commutative(t1 + t2, t3);
        vstd::seq_lib::lemma_multiset_commutative(t1, t2);
        vstd::seq_lib::lemma_multiset_commutative(r1 + r2, r3);
        vstd::seq_lib::lemma_multiset_commutative(r1, r2);
        vstd::seq_lib::lemma_multiset_commutative(l1 + l2, l3);
        vstd::seq_lib::lemma_multiset_commutative(l1, l2);
        vstd::seq_lib::lemma_multiset_commutative(r1, l1);
        vstd::seq_lib::lemma_multiset_commutative(r2, l2);
        vstd::seq_lib::lemma_multiset_commutative(r3, l3);
        assert((t1 + t2 + t3).to_multiset() =~= (r1 + r2 + r3).to_multiset().add(
            (l1 + l2 + l3).to_multiset(),
        ));
        assert(all_functions(files) == all_functions(rest) + lf);
        vstd::seq_lib::lemma_multiset_commutative(all_functions(rest), lf);
        assert((t1 + t2 + t3).to_multiset() =~= all_functions(files).to_multiset());
    }
}

/// The empty pattern answers every function exactly once (provided no
/// function bears an empty name, which would capture the exact tier): the
/// answers and the functions of all records agree as multisets.
pub proof fn lemma_empty_pattern_matches_all(files: Seq<TreeNodeView>)
    requires
        forall|i: int, j: int|
            0 <= i < files.len() && 0 <= j < (#[trigger] files[i]).functions.len() ==> (
            #[trigger] files[i].functions[j]).name.len() > 0,
    ensures
        found_functions(files, Seq::<char>::empty()).to_multiset() == all_functions(
            files,
        ).to_multiset(),
{
    assert forall|i: int, j: int|
        0 <= i < files.len() && 0 <= j < (#[trigger] files[i]).functions.len() implies tier_of(
        (#[trigger] files[i].functions[j]).name,
        Seq::<char>::empty(),
    ) != 0 by {
        let n = files[i].functions[j].name;
        assert(n.len() > 0);
        assert(n != Seq::<char>::empty());
        assert(!crate::matching::has_regex_char(Seq::<char>::empty()));
        assert(matches_rest(n, Seq::<char>::empty()));
    }
    lemma_tier_partition(files, Seq::<char>::empty());
}

} // verus!

verus! {

/// One tier's answers, each paired with the path of the record it came
/// from, in storage order.
pub open spec fn fns_matching_keyed(
    files: Seq<TreeNodeView>,
    pattern: Seq<char>,
    tier: int,
) -> Seq<(Seq<char>, FunctionSignatureView)>
    decreases files.len(),
{
    if files.len() == 0 {
        Seq::empty()
    } else {
        fns_matching_keyed(files.drop_last(), pattern, tier) + fns_matching_in(
            files.last().functions,
            pattern,
            tier,
        ).map_values(|f: FunctionSignatureView| (files.last().file_path, f))
    }
}

/// Keyed order: by path first, then by starting line.
pub open spec fn key_le(
    a: (Seq<char>, FunctionSignatureView),
    b: (Seq<char>, FunctionSignatureView),
) -> bool {
    crate::text::lex_lt(a.0, b.0) || (a.0 == b.0 && a.1.start_line <= b.1.start_line)
}

/// Dropping the keys gives exactly the tier's answers: the keyed sequence
/// attributes each answered function to its record.
pub proof fn lemma_keyed_projection(files: Seq<TreeNodeView>, pattern: Seq<char>, tier: int)
    ensures
        fns_matching_keyed(files, pattern, tier).map_values(
            |p: (Seq<char>, FunctionSignatureView)| p.1,
        ) == fns_matching(files, pattern, tier),
    decreases files.len(),
{
    if files.len() > 0 {
        lemma_keyed_projection(files.drop_last(), pattern, tier);
        assert(fns_matching_keyed(files, pattern, tier).map_values(
            |p: (Seq<char>, FunctionSignatureView)| p.1,
        ) =~= fns_matching(files, pattern, tier));
    } else {
        assert(fns_matching_keyed(files, pattern, tier).map_values(
            |p: (Seq<char>, FunctionSignatureView)| p.1,
        ) =~= fns_matching(files, pattern, tier));
    }
}

proof fn lemma_keyed_member_at(files: Seq<TreeNodeView>, pattern: Seq<char>, tier: int, k: int)
    requires
        0 <= k < fns_matching_keyed(files, pattern, tier).len(),
    ensures
        exists|i: int|
            0 <= i < files.len() && (#[trigger] files[i]).file_path == fns_matching_keyed(
                files,
                pattern,
                tier,
            )[k].0,
    decreases files.len(),
{
    let m = fns_matching_keyed(files.drop_last(), pattern, tier);
    if k < m.len() {
        lemma_keyed_member_at(files.drop_last(), pattern, tier, k);
        let i = choose|i: int|
            0 <= i < files.drop_last().len() && (#[trigger] files.drop_last()[i]).file_path
                == m[k].0;
        assert(files[i] == files.drop_last()[i]);
        assert(fns_matching_keyed(files, pattern, tier)[k] == m[k]);
        assert(0 <= i < files.len() && files[i].file_path == fns_matching_keyed(
            files,
            pattern,
            tier,
        )[k].0);
    } else {
        let i = files.len() - 1;
        assert(files[i] == files.last());
        assert(fns_matching_keyed(files, pattern, tier)[k].0 == files[i].file_path);
    }
}

proof fn lemma_matching_in_line_sorted(
    fns: Seq<FunctionSignatureView>,
    pattern: Seq<char>,
    tier: int,
)
    requires
        forall|a: int, b: int|
            0 <= a < b < fns.len() ==> (#[trigger] fns[a]).start_line <= (
            #[trigger] fns[b]).start_line,
    ensures
        forall|k1: int, k2: int|
            0 <= k1 < k2 < fns_matching_in(fns, pattern, tier).len() ==> (
            #[trigger] fns_matching_in(fns, pattern, tier)[k1]).start_line <= (
            #[trigger] fns_matching_in(fns, pattern, tier)[k2]).start_line,
    decreases fns.len(),
{
    if fns.len() > 0 {
        assert(forall|a: int, b: int|
            0 <= a < b < fns.drop_last().len() ==> (#[trigger] fns.drop_last()[a]).start_line <= (
            #[trigger] fns.drop_last()[b]).start_line) by {
            assert(forall|a: int| 0 <= a < fns.drop_last().len() ==> fns.drop_last()[a] == fns[a]);
        }
        lemma_matching_in_line_sorted(fns.drop_last(), pattern, tier);
        let m = fns_matching_in(fns.drop_last(), pattern, tier);
        let w = fns_matching_in(fns, pattern, tier);
        assert forall|k1: int, k2: int|
            0 <= k1 < k2 < w.len() implies (#[trigger] w[k1]).start_line <= (
        #[trigger] w[k2]).start_line by {
            if k2 < m.len() {
                assert(w[k1] == m[k1]);
                assert(w[k2] == m[k2]);
            } else {
                assert(w[k2] == fns.last());
                assert(w[k1] == m[k1]);
                lemma_fns_matching_in_member_at(fns.drop_last(), pattern, tier, k1);
                let j = choose|j: int|
                    0 <= j < fns.drop_last().len() && fns.drop_last()[j] == m[k1] && fn_matches(
                        fns.drop_last()[j],
                        pattern,
                        tier,
                    );
                assert(fns[j] == fns.drop_last()[j]);
                assert(fns[j].start_line <= fns[fns.len() - 1].start_line);
            }
        }
    }
}

/// Within one tier the answers come out ordered by `(file_path,
/// start_line)`: when the records are stored in strictly ascending path
/// order and each record's functions in ascending line order — as the
/// engine's path-sorted ingestion and the analyzer's match order provide —
/// each tier of `found_functions` is sorted by that key.
pub proof fn lemma_tier_path_line_order(
    files: Seq<TreeNodeView>,
    pattern: Seq<char>,
    tier: int,
    k1: int,
    k2: int,
)
    requires
        forall|i: int, j: int|
            0 <= i < j < files.len() ==> crate::text::lex_lt(
                (#[trigger] files[i]).file_path,
                (#[trigger] files[j]).file_path,
            ),
        forall|i: int, a: int, b: int|
            0 <= i < files.len() && 0 <= a < b < (#[trigger] files[i]).functions.len() ==> (
            #[trigger] files[i].functions[a]).start_line <= (
            #[trigger] files[i].functions[b]).start_line,
        0 <= k1 < k2 < fns_matching_keyed(files, pattern, tier).len(),
    ensures
        key_le(
            fns_matching_keyed(files, pattern, tier)[k1],
            fns_matching_keyed(files, pattern, tier)[k2],
        ),
    decreases files.len(),
{
    let m = fns_matching_keyed(files.drop_last(), pattern, tier);
    let w = fns_matching_keyed(files, pattern, tier);
    if k2 < m.len() {
        assert(forall|i: int, j: int|
            0 <= i < j < files.drop_last().len() ==> crate::text::lex_lt(
                (#[trigger] files.drop_last()[i]).file_path,
                (#[trigger] files.drop_last()[j]).file_path,
            )) by {
            assert(forall|i: int|
                0 <= i < files.drop_last().len() ==> files.drop_last()[i] == files[i]);
        }
        assert(forall|i: int, a: int, b: int|
            0 <= i < files.drop_last().len() && 0 <= a < b < (
            #[trigger] files.drop_last()[i]).functions.len() ==> (
            #[trigger] files.drop_last()[i].functions[a]).start_line <= (
            #[trigger] files.drop_last()[i].functions[b]).start_line) by {
            assert(forall|i: int|
                0 <= i < files.drop_last().len() ==> files.drop_last()[i] == files[i]);
        }
        lemma_tier_path_line_order(files.drop_last(), pattern, tier, k1, k2);
        assert(w[k1] == m[k1]);
        assert(w[k2] == m[k2]);
    } else {
        let t = fns_matching_in(files.last().functions, pattern, tier);
        assert(w[k2] == (files.last().file_path, t[k2 - m.len()]));
        if k1 < m.len() {
            assert(w[k1] == m[k1]);
            lemma_keyed_member_at(files.drop_last(), pattern, tier, k1);
            let i = choose|i: int|
                0 <= i < files.drop_last().len() && (#[trigger] files.drop_last()[i]).file_path
                    == m[k1].0;
            assert(files[i] == files.drop_last()[i]);
            assert(crate::text::lex_lt(files[i].file_path, files[files.len() - 1].file_path));
            assert(files[files.len() - 1] == files.last());
        } else {
            assert(w[k1] == (files.last().file_path, t[k1 - m.len()]));
            let last = files.len() - 1;
            assert(files[last] == files.last());
            assert(forall|a: int, b: int|
                0 <= a < b < files.last().functions.len() ==> (
                #[trigger] files.last().functions[a]).start_line <= (
                #[trigger] files.last().functions[b]).start_line);
            lemma_matching_in_line_sorted(files.last().functions, pattern, tier);
        }
    }
}

} // verus!
