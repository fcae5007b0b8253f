//! The run-level walk: the desired state names every (target, environment)
//! pair to reconcile, and before any remote call is issued every secret name
//! it references must exist in the local store.

use crate::plan::{seq_has_name, distinct_names, DesiredSpec};
use crate::store::SecretStore;
use vstd::prelude::*;

verus! {

/// The whole desired state: for each target, its environments and what each
/// should hold, in the order they are to be processed.
pub struct DesiredState {
    pub targets: Vec<(String, Vec<(String, DesiredSpec)>)>,
}

/// The desired state references the secret name `n` somewhere.
pub open spec fn references(st: DesiredState, n: Seq<char>) -> bool {
    exists|t: int, e: int|
        0 <= t < st.targets@.len() && 0 <= e < (#[trigger] st.targets@[t]).1@.len()
            && seq_has_name((#[trigger] st.targets@[t].1@[e]).1.props@, n)
}

/// Collects every referenced name, in order of appearance, duplicates kept.
fn referenced_names(st: &DesiredState) -> (all: Vec<String>)
    ensures
        forall|n: Seq<char>| seq_has_name(all@, n) <==> references(*st, n),
{
    let mut all: Vec<String> = Vec::new();
    let mut t: usize = 0;
    while t < st.targets.len()
        invariant
            0 <= t <= st.targets@.len(),
            forall|n: Seq<char>| #[trigger] seq_has_name(all@, n) <==> exists|t2: int, e: int|
                0 <= t2 < t && 0 <= e < (#[trigger] st.targets@[t2]).1@.len()
                    && seq_has_name((#[trigger] st.targets@[t2].1@[e]).1.props@, n),
        decreases st.targets@.len() - t,
    {
        let envs = &st.targets[t].1;
        let mut e: usize = 0;
        while e < envs.len()
            invariant
                0 <= e <= envs@.len(),
                0 <= t < st.targets@.len(),
                envs@ == st.targets@[t as int].1@,
                forall|n: Seq<char>| #[trigger] seq_has_name(all@, n) <==> (exists|t2: int, e2: int|
                    0 <= t2 < t && 0 <= e2 < (#[trigger] st.targets@[t2]).1@.len()
                        && seq_has_name((#[trigger] st.targets@[t2].1@[e2]).1.props@, n))
                    || (exists|e2: int|
                        0 <= e2 < e && seq_has_name((#[trigger] envs@[e2]).1.props@, n)),
            decreases envs@.len() - e,
        {
            let props = &envs[e].1.props;
            let mut p: usize = 0;
            while p < props.len()
                invariant
                    0 <= p <= props@.len(),
                    0 <= e < envs@.len(),
                    0 <= t < st.targets@.len(),
                    envs@ == st.targets@[t as int].1@,
                    props@ == envs@[e as int].1.props@,
                    forall|n: Seq<char>| #[trigger] seq_has_name(all@, n) <==> (exists|t2: int, e2: int|
                        0 <= t2 < t && 0 <= e2 < (#[trigger] st.targets@[t2]).1@.len()
                            && seq_has_name((#[trigger] st.targets@[t2].1@[e2]).1.props@, n))
                        || (exists|e2: int|
                            0 <= e2 < e && seq_has_name((#[trigger] envs@[e2]).1.props@, n))
                        || seq_has_name(props@.take(p as int), n),
                decreases props@.len() - p,
            {
                let ghost pre = all@;
                all.push(props[p].clone());
                proof {
                    assert forall|n: Seq<char>| #[trigger] seq_has_name(all@, n)
                        implies seq_has_name(pre, n) || seq_has_name(props@.take(p + 1), n) by {
                        let i = choose|i: int| 0 <= i < all@.len() && all@[i]@ == n;
                        if i < pre.len() {
                            assert(pre[i]@ == n);
                        } else {
                            assert(props@.take(p + 1)[p as int]@ == n);
                        }
                    }
                    assert forall|n: Seq<char>|
                        seq_has_name(pre, n) || seq_has_name(props@.take(p + 1), n)
                        implies #[trigger] seq_has_name(all@, n) by {
                        if seq_has_name(pre, n) {
                            let i = choose|i: int| 0 <= i < pre.len() && pre[i]@ == n;
                            assert(all@[i]@ == n);
                        } else {
                            let tp = props@.take(p + 1);
                            let i = choose|i: int| 0 <= i < tp.len() && tp[i]@ == n;
                            if i < p {
                                assert(props@.take(p as int)[i]@ == n);
                                assert(seq_has_name(props@.take(p as int), n));
                                assert(seq_has_name(pre, n));
                            } else {
                                assert(all@[all@.len() - 1]@ == n);
                            }
                        }
                    }
                }
                p = p + 1;
            }
            proof {
                assert(props@.take(props@.len() as int) =~= props@);
                assert forall|n: Seq<char>| #[trigger] seq_has_name(all@, n)
                    implies (exists|t2: int, e2: int|
                        0 <= t2 < t && 0 <= e2 < (#[trigger] st.targets@[t2]).1@.len()
                            && seq_has_name((#[trigger] st.targets@[t2].1@[e2]).1.props@, n))
                        || (exists|e2: int|
                            0 <= e2 < e + 1 && seq_has_name((#[trigger] envs@[e2]).1.props@, n)) by {
                    if seq_has_name(props@, n) {
                        assert(seq_has_name((envs@[e as int]).1.props@, n));
                    }
                }
            }
            e = e + 1;
        }
        proof {
            assert forall|n: Seq<char>| #[trigger] seq_has_name(all@, n)
                implies exists|t2: int, e2: int|
                    0 <= t2 < t + 1 && 0 <= e2 < (#[trigger] st.targets@[t2]).1@.len()
                        && seq_has_name((#[trigger] st.targets@[t2].1@[e2]).1.props@, n) by {
                if exists|e2: int| 0 <= e2 < envs@.len()
                    && seq_has_name((#[trigger] envs@[e2]).1.props@, n) {
                    let e2 = choose|e2: int| 0 <= e2 < envs@.len()
                        && seq_has_name((#[trigger] envs@[e2]).1.props@, n);
                    assert(seq_has_name((st.targets@[t as int].1@[e2]).1.props@, n));
                }
            }
        }
        t = t + 1;
    }
    all
}

/// The referenced names absent from the store, each once, in order of first
/// appearance; empty exactly when every referenced name is present.
pub fn missing_secrets(store: &SecretStore, st: &DesiredState) -> (missing: Vec<String>)
    ensures
        forall|n: Seq<char>|
            #[trigger] seq_has_name(missing@, n)
                <==> references(*st, n) && !store.map_view().dom().contains(n),
        distinct_names(missing@),
{
    let all = referenced_names(st);
    let mut missing: Vec<String> = Vec::new();
    let mut i: usize = 0;
    while i < all.len()
        invariant
            0 <= i <= all@.len(),
            distinct_names(missing@),
            forall|n: Seq<char>|
                #[trigger] seq_has_name(missing@, n)
                    <==> seq_has_name(all@.take(i as int), n)
                        && !store.map_view().dom().contains(n),
        decreases all@.len() - i,
    {
        let ghost pre = missing@;
        if !store.contains(&all[i]) && !crate::plan::has_name(&missing, &all[i]) {
            missing.push(all[i].clone());
        }
        proof {
            assert(all@.take(i + 1).drop_last() =~= all@.take(i as int));
            assert(all@.take(i + 1).last() == all@[i as int]);
            assert forall|n: Seq<char>| #[trigger] seq_has_name(missing@, n)
                implies seq_has_name(all@.take(i + 1), n)
                    && !store.map_view().dom().contains(n) by {
                let k = choose|k: int| 0 <= k < missing@.len() && missing@[k]@ == n;
                if k < pre.len() {
                    assert(seq_has_name(pre, n));
                    let j = choose|j: int| 0 <= j < i && all@.take(i as int)[j]@ == n;
                    assert(all@.take(i + 1)[j]@ == n);
                } else {
                    assert(missing@[k]@ == all@[i as int]@);
                    assert(all@.take(i + 1)[i as int]@ == n);
                }
            }
            assert forall|n: Seq<char>|
                seq_has_name(all@.take(i + 1), n) && !store.map_view().dom().contains(n)
                implies #[trigger] seq_has_name(missing@, n) by {
                let ta = all@.take(i + 1);
                let j = choose|j: int| 0 <= j < ta.len() && ta[j]@ == n;
                if j < i {
                    assert(all@.take(i as int)[j]@ == n);
                    assert(seq_has_name(all@.take(i as int), n));
                    assert(seq_has_name(pre, n));
                    let k = choose|k: int| 0 <= k < pre.len() && pre[k]@ == n;
                    assert(missing@[k]@ == n);
                } else {
                    assert(all@[i as int]@ == n);
                    if seq_has_name(pre, n) {
                        let k = choose|k: int| 0 <= k < pre.len() && pre[k]@ == n;
                        assert(missing@[k]@ == n);
                    } else {
                        assert(missing@[missing@.len() - 1]@ == n);
                    }
                }
            }
        }
        i = i + 1;
    }
    proof {
        assert(all@.take(all@.len() as int) =~= all@);
    }
    missing
}

/// The pre-flight gate: `Ok` exactly when every secret name the desired
/// state references is present in the local store; otherwise the full set of
/// missing names, and the caller issues no remote call at all.
pub fn preflight(store: &SecretStore, st: &DesiredState) -> (r: Result<(), Vec<String>>)
    ensures
        match r {
            Ok(_) => forall|n: Seq<char>|
                #[trigger] references(*st, n) ==> store.map_view().dom().contains(n),
            Err(m) => m@.len() > 0 && distinct_names(m@) && forall|n: Seq<char>|
                #[trigger] seq_has_name(m@, n)
                    <==> references(*st, n) && !store.map_view().dom().contains(n),
        },
{
    let missing = missing_secrets(store, st);
    if missing.len() == 0 {
        proof {
            assert forall|n: Seq<char>| #[trigger] references(*st, n)
                implies store.map_view().dom().contains(n) by {
                if !store.map_view().dom().contains(n) {
                    assert(seq_has_name(missing@, n));
                    let i = choose|i: int| 0 <= i < missing@.len() && missing@[i]@ == n;
                }
            }
        }
        Ok(())
    } else {
        Err(missing)
    }
}

} // verus!
