//! The reconciliation plan for one (target, environment) pair: given the
//! listing of the secrets the environment already holds and the desired
//! specification, the ordered sequence of remote calls to issue.
//!
//! Deletions always come first, then the single public-key fetch, then the
//! additions, so a secret scheduled for removal is never raced by its own
//! re-addition.

use vstd::prelude::*;

verus! {

/// What an environment should hold: the set of secret names, and whether
/// secrets outside that set are tolerated (`additional`) or purged.
pub struct DesiredSpec {
    pub props: Vec<String>,
    pub additional: bool,
}

/// Some entry of `s` reads `n`.
pub open spec fn seq_has_name(s: Seq<String>, n: Seq<char>) -> bool {
    exists|i: int| 0 <= i < s.len() && s[i]@ == n
}

/// No entry of `s` occurs twice.
pub open spec fn distinct_names(s: Seq<String>) -> bool {
    forall|i: int, j: int| 0 <= i < j < s.len() ==> s[i]@ != s[j]@
}

impl DesiredSpec {
    /// The names the environment should hold, as a set.
    pub open spec fn props_set(&self) -> Set<Seq<char>> {
        Set::new(|n: Seq<char>| seq_has_name(self.props@, n))
    }

    /// Each desired name is listed once.
    pub open spec fn wf(&self) -> bool {
        distinct_names(self.props@)
    }
}

/// What listing an environment's secrets produced: the names present, or the
/// signal that the environment itself does not exist yet.
pub enum EnvListing {
    Present(Vec<String>),
    Absent,
}

impl EnvListing {
    /// The names the environment holds; an absent environment holds none.
    pub open spec fn existing(&self) -> Seq<String> {
        match self {
            EnvListing::Present(v) => v@,
            EnvListing::Absent => Seq::empty(),
        }
    }
}

/// One remote call of a reconciliation, in plan order.
#[derive(Debug, PartialEq, Eq)]
pub enum ApiAction {
    /// Create the environment (idempotent); issued only when it was absent.
    CreateEnvironment,
    /// Delete the named secret.
    DeleteSecret(String),
    /// Fetch the environment's public key, once, between deletions and additions.
    FetchPublicKey,
    /// Seal and upsert the named secret.
    PutSecret(String),
}

/// The deletions owed: one per existing name outside `props`, in listing order.
pub open spec fn deletions_of(existing: Seq<String>, props: Set<Seq<char>>) -> Seq<ApiAction>
    decreases existing.len(),
{
    if existing.len() == 0 {
        Seq::empty()
    } else {
        let rest = deletions_of(existing.drop_last(), props);
        if props.contains(existing.last()@) {
            rest
        } else {
            rest.push(ApiAction::DeleteSecret(existing.last()))
        }
    }
}

/// The create segment: one creation exactly when the environment was absent.
pub open spec fn create_part(listing: EnvListing) -> Seq<ApiAction> {
    match listing {
        EnvListing::Absent => seq![ApiAction::CreateEnvironment],
        EnvListing::Present(_) => Seq::empty(),
    }
}

/// The delete segment: empty when `additional` tolerates extra secrets.
pub open spec fn delete_part(listing: EnvListing, desired: DesiredSpec) -> Seq<ApiAction> {
    if desired.additional {
        Seq::empty()
    } else {
        deletions_of(listing.existing(), desired.props_set())
    }
}

/// The addition segment: one upsert per desired name, in `props` order.
pub open spec fn put_part(desired: DesiredSpec) -> Seq<ApiAction> {
    desired.props@.map_values(|s: String| ApiAction::PutSecret(s))
}

/// The full plan for one (target, environment) pair.
pub open spec fn spec_plan(listing: EnvListing, desired: DesiredSpec) -> Seq<ApiAction> {
    create_part(listing) + delete_part(listing, desired) + seq![ApiAction::FetchPublicKey]
        + put_part(desired)
}

/// The plan deletes the name `n`.
pub open spec fn plan_deletes(plan: Seq<ApiAction>, n: Seq<char>) -> bool {
    exists|i: int|
        0 <= i < plan.len() && ((#[trigger] plan[i]) matches ApiAction::DeleteSecret(s) && s@ == n)
}

/// The plan upserts the name `n`.
pub open spec fn plan_puts(plan: Seq<ApiAction>, n: Seq<char>) -> bool {
    exists|i: int|
        0 <= i < plan.len() && ((#[trigger] plan[i]) matches ApiAction::PutSecret(s) && s@ == n)
}

/// Every action of `deletions_of` is a deletion, of a name that is in
/// `existing` and outside `props`; and every such name is deleted.
pub proof fn lemma_deletions_of(existing: Seq<String>, props: Set<Seq<char>>)
    ensures
        forall|i: int|
            0 <= i < deletions_of(existing, props).len()
                ==> (#[trigger] deletions_of(existing, props)[i]) is DeleteSecret,
        forall|n: Seq<char>|
            #[trigger] plan_deletes(deletions_of(existing, props), n)
                <==> seq_has_name(existing, n) && !props.contains(n),
    decreases existing.len(),
{
    if existing.len() > 0 {
        lemma_deletions_of(existing.drop_last(), props);
        let rest = deletions_of(existing.drop_last(), props);
        let whole = deletions_of(existing, props);
        assert forall|n: Seq<char>| #[trigger] plan_deletes(whole, n)
            implies seq_has_name(existing, n) && !props.contains(n) by {
            let i = choose|i: int|
                0 <= i < whole.len() && ((#[trigger] whole[i]) matches ApiAction::DeleteSecret(s)
                    && s@ == n);
            if i < rest.len() {
                assert(plan_deletes(rest, n));
                let j = choose|j: int|
                    0 <= j < existing.drop_last().len() && existing.drop_last()[j]@ == n;
                assert(existing[j]@ == n);
            } else {
                assert(existing[existing.len() - 1]@ == n);
            }
        }
        assert forall|n: Seq<char>| seq_has_name(existing, n) && !props.contains(n)
            implies #[trigger] plan_deletes(whole, n) by {
            let j = choose|j: int| 0 <= j < existing.len() && existing[j]@ == n;
            if j < existing.len() - 1 {
                assert(existing.drop_last()[j]@ == n);
                assert(plan_deletes(rest, n));
                let i = choose|i: int|
                    0 <= i < rest.len() && ((#[trigger] rest[i]) matches ApiAction::DeleteSecret(s)
                        && s@ == n);
                assert(whole[i] == rest[i]);
            } else {
                if !props.contains(existing.last()@) {
                    assert(whole[whole.len() - 1] matches ApiAction::DeleteSecret(s) && s@ == n);
                }
            }
        }
    }
}

/// Diff correctness: with `additional` false the plan deletes exactly the
/// existing names outside `props`; with `additional` true it deletes nothing.
/// Either way it upserts exactly the names in `props`.
pub proof fn lemma_plan_diff(listing: EnvListing, desired: DesiredSpec)
    ensures
        !desired.additional ==> forall|n: Seq<char>|
            #[trigger] plan_deletes(spec_plan(listing, desired), n)
                <==> seq_has_name(listing.existing(), n) && !desired.props_set().contains(n),
        desired.additional ==> forall|i: int|
            0 <= i < spec_plan(listing, desired).len()
                ==> !((#[trigger] spec_plan(listing, desired)[i]) is DeleteSecret),
        forall|n: Seq<char>|
            #[trigger] plan_puts(spec_plan(listing, desired), n)
                <==> desired.props_set().contains(n),
{
    let plan = spec_plan(listing, desired);
    let dels = delete_part(listing, desired);
    let puts = put_part(desired);
    let base = create_part(listing).len() + dels.len() + 1;
    lemma_deletions_of(listing.existing(), desired.props_set());
    assert forall|n: Seq<char>| #[trigger] plan_deletes(plan, n)
        implies plan_deletes(dels, n) by {
        let i = choose|i: int|
            0 <= i < plan.len() && ((#[trigger] plan[i]) matches ApiAction::DeleteSecret(s)
                && s@ == n);
        let c = create_part(listing).len();
        if i < c {
            assert(create_part(listing)[i] is CreateEnvironment);
        } else if i < c + dels.len() {
            assert(plan[i] == dels[i - c]);
        } else if i == c + dels.len() {
            assert(plan[i] is FetchPublicKey);
        } else {
            assert(plan[i] == puts[i - base]);
            assert(puts[i - base] is PutSecret);
        }
    }
    assert forall|n: Seq<char>| plan_deletes(dels, n) implies #[trigger] plan_deletes(plan, n) by {
        let i = choose|i: int|
            0 <= i < dels.len() && ((#[trigger] dels[i]) matches ApiAction::DeleteSecret(s)
                && s@ == n);
        assert(plan[create_part(listing).len() + i] == dels[i]);
    }
    assert forall|n: Seq<char>| #[trigger] plan_puts(plan, n)
        implies desired.props_set().contains(n) by {
        let i = choose|i: int|
            0 <= i < plan.len() && ((#[trigger] plan[i]) matches ApiAction::PutSecret(s) && s@ == n);
        let c = create_part(listing).len();
        if i < c {
            assert(create_part(listing)[i] is CreateEnvironment);
        } else if i < c + dels.len() {
            assert(plan[i] == dels[i - c]);
        } else if i == c + dels.len() {
            assert(plan[i] is FetchPublicKey);
        } else {
            assert(plan[i] == puts[i - base]);
            assert(desired.props@[i - base]@ == n);
        }
    }
    assert forall|n: Seq<char>| desired.props_set().contains(n)
        implies #[trigger] plan_puts(plan, n) by {
        let j = choose|j: int| 0 <= j < desired.props@.len() && desired.props@[j]@ == n;
        assert(puts[j] matches ApiAction::PutSecret(s) && s@ == n);
        assert(plan[base + j] == puts[j]);
    }
    if desired.additional {
        assert forall|i: int| 0 <= i < plan.len() implies !((#[trigger] plan[i]) is DeleteSecret) by {
            let c = create_part(listing).len();
            if i < c {
                assert(create_part(listing)[i] is CreateEnvironment);
            } else if i == c {
                assert(plan[i] is FetchPublicKey);
            } else {
                assert(plan[i] == puts[i - base]);
                assert(puts[i - base] is PutSecret);
            }
        }
    }
}

/// Deletions of a listing without repeated names never repeat a name.
pub proof fn lemma_deletions_distinct(existing: Seq<String>, props: Set<Seq<char>>)
    requires
        distinct_names(existing),
    ensures
        forall|i: int, j: int|
            0 <= i < j < deletions_of(existing, props).len()
                ==> !((#[trigger] deletions_of(existing, props)[i]) matches ApiAction::DeleteSecret(a)
                    && (#[trigger] deletions_of(existing, props)[j]) matches ApiAction::DeleteSecret(b)
                    && a@ == b@),
    decreases existing.len(),
{
    if existing.len() > 0 {
        let prior = existing.drop_last();
        let rest = deletions_of(prior, props);
        let whole = deletions_of(existing, props);
        lemma_deletions_distinct(prior, props);
        lemma_deletions_of(prior, props);
        assert forall|i: int, j: int| 0 <= i < j < whole.len()
            implies !((#[trigger] whole[i]) matches ApiAction::DeleteSecret(a)
                && (#[trigger] whole[j]) matches ApiAction::DeleteSecret(b) && a@ == b@) by {
            if j < rest.len() {
                assert(whole[i] == rest[i]);
                assert(whole[j] == rest[j]);
            } else if whole.len() > rest.len() {
                // the last action deletes the last name, which no earlier
                // entry of the listing carries
                assert(whole[j] == ApiAction::DeleteSecret(existing.last()));
                assert(whole[i] == rest[i]);
                match whole[i] {
                    ApiAction::DeleteSecret(a) => {
                        assert(plan_deletes(rest, a@));
                        let k = choose|k: int| 0 <= k < prior.len() && prior[k]@ == a@;
                        assert(existing[k]@ == a@);
                        assert(existing[k]@ != existing.last()@);
                    },
                    _ => (),
                }
            }
        }
    }
}

/// No name is deleted twice and none is upserted twice, provided the
/// listing and the desired names are themselves free of repetition.
pub proof fn lemma_plan_no_duplicates(listing: EnvListing, desired: DesiredSpec)
    requires
        distinct_names(listing.existing()),
        desired.wf(),
    ensures
        forall|i: int, j: int|
            0 <= i < j < spec_plan(listing, desired).len()
                ==> !((#[trigger] spec_plan(listing, desired)[i]) matches ApiAction::DeleteSecret(a)
                    && (#[trigger] spec_plan(listing, desired)[j]) matches ApiAction::DeleteSecret(b)
                    && a@ == b@),
        forall|i: int, j: int|
            0 <= i < j < spec_plan(listing, desired).len()
                ==> !((#[trigger] spec_plan(listing, desired)[i]) matches ApiAction::PutSecret(a)
                    && (#[trigger] spec_plan(listing, desired)[j]) matches ApiAction::PutSecret(b)
                    && a@ == b@),
{
    let plan = spec_plan(listing, desired);
    let dels = delete_part(listing, desired);
    let puts = put_part(desired);
    let c = create_part(listing).len();
    let base = c + dels.len() + 1;
    if !desired.additional {
        lemma_deletions_distinct(listing.existing(), desired.props_set());
    }
    lemma_deletions_of(listing.existing(), desired.props_set());
    assert forall|i: int| 0 <= i < plan.len() implies
        ((#[trigger] plan[i]) is DeleteSecret ==> c <= i < c + dels.len() && plan[i] == dels[i - c])
        && (plan[i] is PutSecret ==> base <= i && plan[i] == puts[i - base]) by {
        if i < c {
            assert(create_part(listing)[i] is CreateEnvironment);
        } else if i < c + dels.len() {
            assert(plan[i] == dels[i - c]);
        } else if i == c + dels.len() {
            assert(plan[i] is FetchPublicKey);
        } else {
            assert(plan[i] == puts[i - base]);
        }
    }
    assert forall|i: int, j: int| 0 <= i < j < plan.len()
        implies !((#[trigger] plan[i]) matches ApiAction::PutSecret(a)
            && (#[trigger] plan[j]) matches ApiAction::PutSecret(b) && a@ == b@) by {
        if plan[i] is PutSecret && plan[j] is PutSecret {
            assert(puts[i - base] == ApiAction::PutSecret(desired.props@[i - base]));
            assert(puts[j - base] == ApiAction::PutSecret(desired.props@[j - base]));
            assert(desired.props@[i - base]@ != desired.props@[j - base]@);
        }
    }
}

/// Ordering: every deletion of the plan comes before the public-key fetch,
/// and the fetch before every addition; so no addition precedes a deletion.
pub proof fn lemma_plan_ordering(listing: EnvListing, desired: DesiredSpec)
    ensures
        forall|i: int, j: int|
            0 <= i < spec_plan(listing, desired).len() && 0 <= j < spec_plan(listing, desired).len()
                && (#[trigger] spec_plan(listing, desired)[i]) is DeleteSecret
                && (#[trigger] spec_plan(listing, desired)[j]) is PutSecret ==> i < j,
        forall|i: int, j: int|
            0 <= i < spec_plan(listing, desired).len() && 0 <= j < spec_plan(listing, desired).len()
                && (#[trigger] spec_plan(listing, desired)[i]) is DeleteSecret
                && (#[trigger] spec_plan(listing, desired)[j]) is FetchPublicKey ==> i < j,
        forall|i: int, j: int|
            0 <= i < spec_plan(listing, desired).len() && 0 <= j < spec_plan(listing, desired).len()
                && (#[trigger] spec_plan(listing, desired)[i]) is FetchPublicKey
                && (#[trigger] spec_plan(listing, desired)[j]) is PutSecret ==> i < j,
{
    let plan = spec_plan(listing, desired);
    let dels = delete_part(listing, desired);
    let puts = put_part(desired);
    let c = create_part(listing).len();
    let base = c + dels.len() + 1;
    lemma_deletions_of(listing.existing(), desired.props_set());
    assert forall|i: int| 0 <= i < plan.len() implies
        ((#[trigger] plan[i]) is DeleteSecret ==> c <= i < c + dels.len())
        && (plan[i] is FetchPublicKey ==> i == c + dels.len())
        && (plan[i] is PutSecret ==> base <= i) by {
        if i < c {
            assert(create_part(listing)[i] is CreateEnvironment);
        } else if i < c + dels.len() {
            assert(plan[i] == dels[i - c]);
            assert(dels[i - c] is DeleteSecret);
        } else if i == c + dels.len() {
            assert(plan[i] is FetchPublicKey);
        } else {
            assert(plan[i] == puts[i - base]);
            assert(puts[i - base] is PutSecret);
        }
    }
}

/// Lazy creation: an absent environment gets exactly one creation, as the
/// first action, and no deletions; a present one gets no creation at all.
pub proof fn lemma_plan_lazy_create(listing: EnvListing, desired: DesiredSpec)
    ensures
        listing is Absent ==> spec_plan(listing, desired)[0] is CreateEnvironment,
        listing is Absent ==> forall|i: int|
            1 <= i < spec_plan(listing, desired).len()
                ==> !((#[trigger] spec_plan(listing, desired)[i]) is CreateEnvironment),
        listing is Absent ==> forall|i: int|
            0 <= i < spec_plan(listing, desired).len()
                ==> !((#[trigger] spec_plan(listing, desired)[i]) is DeleteSecret),
        listing is Present ==> forall|i: int|
            0 <= i < spec_plan(listing, desired).len()
                ==> !((#[trigger] spec_plan(listing, desired)[i]) is CreateEnvironment),
{
    let plan = spec_plan(listing, desired);
    let dels = delete_part(listing, desired);
    let puts = put_part(desired);
    let c = create_part(listing).len();
    let base = c + dels.len() + 1;
    if listing is Absent {
        assert(listing.existing().len() == 0);
        assert(dels.len() == 0);
        assert(plan[0] == create_part(listing)[0]);
        assert forall|i: int| 1 <= i < plan.len() implies
            !((#[trigger] plan[i]) is CreateEnvironment) && !(plan[i] is DeleteSecret) by {
            if i == 1 {
                assert(plan[i] is FetchPublicKey);
            } else {
                assert(plan[i] == puts[i - 2]);
                assert(puts[i - 2] is PutSecret);
            }
        }
    } else {
        assert(c == 0);
        assert forall|i: int| 0 <= i < plan.len() implies
            !((#[trigger] plan[i]) is CreateEnvironment) by {
            lemma_deletions_of(listing.existing(), desired.props_set());
            if i < dels.len() {
                assert(plan[i] == dels[i]);
                assert(dels[i] is DeleteSecret);
            } else if i == dels.len() {
                assert(plan[i] is FetchPublicKey);
            } else {
                assert(plan[i] == puts[i - base]);
                assert(puts[i - base] is PutSecret);
            }
        }
    }
}

/// Some entry of `v` equals `name`.
pub fn has_name(v: &Vec<String>, name: &String) -> (r: bool)
    ensures
        r == seq_has_name(v@, name@),
{
    let mut i: usize = 0;
    while i < v.len()
        invariant
            0 <= i <= v@.len(),
            forall|j: int| 0 <= j < i ==> v@[j]@ != name@,
        decreases v@.len() - i,
    {
        if v[i] == *name {
            return true;
        }
        i = i + 1;
    }
    false
}

/// Computes the plan for one (target, environment) pair: the create call if
/// the environment was absent, then the owed deletions in listing order, then
/// the single public-key fetch, then one upsert per desired name.
pub fn reconcile_actions(listing: &EnvListing, desired: &DesiredSpec) -> (plan: Vec<ApiAction>)
    ensures
        plan@ == spec_plan(*listing, *desired),
{
    let mut plan: Vec<ApiAction> = Vec::new();
    match listing {
        EnvListing::Absent => plan.push(ApiAction::CreateEnvironment),
        EnvListing::Present(_) => (),
    }
    assert(plan@ =~= create_part(*listing));
    if !desired.additional {
        match listing {
            EnvListing::Absent => (),
            EnvListing::Present(existing) => {
                let mut i: usize = 0;
                while i < existing.len()
                    invariant
                        0 <= i <= existing@.len(),
                        listing.existing() == existing@,
                        plan@ == create_part(*listing)
                            + deletions_of(existing@.take(i as int), desired.props_set()),
                    decreases existing@.len() - i,
                {
                    let ghost pre = plan@;
                    if !has_name(&desired.props, &existing[i]) {
                        plan.push(ApiAction::DeleteSecret(existing[i].clone()));
                    }
                    proof {
                        let t1 = existing@.take(i + 1);
                        assert(t1.drop_last() =~= existing@.take(i as int));
                        assert(t1.last() == existing@[i as int]);
                        assert(seq_has_name(desired.props@, existing@[i as int]@)
                            == desired.props_set().contains(existing@[i as int]@));
                    }
                    i = i + 1;
                }
                proof {
                    assert(existing@.take(existing@.len() as int) =~= existing@);
                }
            },
        }
    }
    assert(plan@ =~= create_part(*listing) + delete_part(*listing, *desired));
    plan.push(ApiAction::FetchPublicKey);
    let mut i: usize = 0;
    while i < desired.props.len()
        invariant
            0 <= i <= desired.props@.len(),
            plan@ == create_part(*listing) + delete_part(*listing, *desired)
                + seq![ApiAction::FetchPublicKey]
                + desired.props@.take(i as int).map_values(|s: String| ApiAction::PutSecret(s)),
        decreases desired.props@.len() - i,
    {
        plan.push(ApiAction::PutSecret(desired.props[i].clone()));
        proof {
            assert(desired.props@.take(i + 1).map_values(|s: String| ApiAction::PutSecret(s))
                =~= desired.props@.take(i as int).map_values(|s: String| ApiAction::PutSecret(s))
                    .push(ApiAction::PutSecret(desired.props@[i as int])));
        }
        i = i + 1;
    }
    proof {
        assert(desired.props@.take(desired.props@.len() as int) =~= desired.props@);
        assert(plan@ =~= spec_plan(*listing, *desired));
    }
    plan
}

} // verus!
