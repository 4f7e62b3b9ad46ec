use vstd::prelude::*;

verus! {

/// The most beneficiaries a plan may list at any time.
pub const MAX_BENEFICIARIES: usize = 5;

/// One owner's plan record: the custodied balance, the bounded beneficiary
/// set, the timer, and the locked distribution once expiry has been
/// triggered.
///
/// Addresses are plain identities; the zero address never names a
/// beneficiary. A plan record exists only while the plan is live.
pub struct InheritanceConfig {
    /// Live beneficiary addresses, in insertion order; never zero, never
    /// duplicated, at most `MAX_BENEFICIARIES` of them.
    pub beneficiaries: Vec<u64>,
    /// Addresses that have already redeemed their share.
    pub claimed: Vec<u64>,
    /// Ledger time of plan creation or of the last explicit timer reset.
    pub last_reset: u64,
    /// Seconds after `last_reset` at which the plan expires; immutable and
    /// positive.
    pub timeout_period: u64,
    /// Funds held for this plan.
    pub balance: u128,
    /// Each beneficiary's redeemable amount; meaningful only once
    /// `share_locked` holds, zero before.
    pub per_beneficiary_share: u128,
    /// The operator's withheld cut; meaningful only once `share_locked`
    /// holds, zero before.
    pub protocol_share: u128,
    /// Set exactly once, when the distribution is computed and frozen.
    pub share_locked: bool,
}

/// The mathematical model of a plan record.
pub struct PlanView {
    pub beneficiaries: Seq<u64>,
    pub claimed: Seq<u64>,
    pub last_reset: int,
    pub timeout_period: int,
    pub balance: int,
    pub per_beneficiary_share: int,
    pub protocol_share: int,
    pub share_locked: bool,
}

impl View for InheritanceConfig {
    type V = PlanView;

    open spec fn view(&self) -> PlanView {
        PlanView {
            beneficiaries: self.beneficiaries@,
            claimed: self.claimed@,
            last_reset: self.last_reset as int,
            timeout_period: self.timeout_period as int,
            balance: self.balance as int,
            per_beneficiary_share: self.per_beneficiary_share as int,
            protocol_share: self.protocol_share as int,
            share_locked: self.share_locked,
        }
    }
}

impl PlanView {
    /// Cardinality of the live beneficiary set.
    pub open spec fn count(self) -> int {
        self.beneficiaries.len() as int
    }

    pub open spec fn is_beneficiary(self, a: u64) -> bool {
        self.beneficiaries.contains(a)
    }

    pub open spec fn has_claimed(self, a: u64) -> bool {
        self.claimed.contains(a)
    }

    /// The ledger time at which the plan expires.
    pub open spec fn expiry_time(self) -> int {
        self.last_reset + self.timeout_period
    }

    /// Expiry is a derived state: it is evaluated on demand against a
    /// caller-supplied current time.
    pub open spec fn expired(self, now: u64) -> bool {
        now >= self.expiry_time()
    }

    /// Well-formedness of a live plan record.
    pub open spec fn wf(self) -> bool {
        &&& self.beneficiaries.no_duplicates()
        &&& !self.beneficiaries.contains(0)
        &&& self.beneficiaries.len() <= MAX_BENEFICIARIES
        &&& self.claimed.no_duplicates()
        &&& 0 <= self.last_reset <= u64::MAX
        &&& 0 < self.timeout_period <= u64::MAX
        &&& 0 <= self.balance <= u128::MAX
        &&& 0 <= self.per_beneficiary_share <= u128::MAX
        &&& 0 <= self.protocol_share <= u128::MAX
        &&& (!self.share_locked ==> self.per_beneficiary_share == 0 && self.protocol_share == 0
            && self.claimed.len() == 0)
        &&& (self.share_locked ==> 1 <= self.count() && 1 <= self.balance
            && self.per_beneficiary_share * self.count() <= self.balance)
    }
}

/// Appending a fresh element keeps a list duplicate-free.
pub proof fn lemma_push_no_duplicates(s: Seq<u64>, a: u64)
    requires
        s.no_duplicates(),
        !s.contains(a),
    ensures
        s.push(a).no_duplicates(),
{
    let b = s.push(a);
    assert forall|i: int, j: int| 0 <= i < b.len() && 0 <= j < b.len() && i != j implies b[i]
        != b[j] by {
        if i < s.len() && j < s.len() {
        } else if i < s.len() {
            assert(s.contains(s[i]));
        } else if j < s.len() {
            assert(s.contains(s[j]));
        }
    }
}

/// Appending a non-zero element cannot introduce the zero address.
pub proof fn lemma_push_keeps_nonzero(s: Seq<u64>, a: u64)
    requires
        !s.contains(0),
        a != 0,
    ensures
        !s.push(a).contains(0),
{
    if s.push(a).contains(0) {
        let i = choose|i: int| 0 <= i < s.push(a).len() && s.push(a)[i] == 0;
        if i < s.len() {
            assert(s.contains(0));
        }
    }
}

/// The beneficiary list retained at plan creation: the supplied addresses
/// are scanned in order, and an address is kept when it is non-zero, not
/// already kept, and fewer than `MAX_BENEFICIARIES` have been kept so far.
pub open spec fn select_beneficiaries(input: Seq<u64>) -> Seq<u64>
    decreases input.len(),
{
    if input.len() == 0 {
        Seq::empty()
    } else {
        let kept = select_beneficiaries(input.drop_last());
        let a = input.last();
        if a != 0 && !kept.contains(a) && kept.len() < MAX_BENEFICIARIES {
            kept.push(a)
        } else {
            kept
        }
    }
}

/// The retained beneficiary list is always valid: free of zero and of
/// duplicates, bounded by the cap, and drawn from the supplied list.
pub proof fn lemma_select_beneficiaries_valid(input: Seq<u64>)
    ensures
        select_beneficiaries(input).no_duplicates(),
        !select_beneficiaries(input).contains(0),
        select_beneficiaries(input).len() <= MAX_BENEFICIARIES,
        forall|x: u64| select_beneficiaries(input).contains(x) ==> input.contains(x),
    decreases input.len(),
{
    if input.len() == 0 {
    } else {
        let prefix = input.drop_last();
        lemma_select_beneficiaries_valid(prefix);
        let kept = select_beneficiaries(prefix);
        let a = input.last();
        let result = select_beneficiaries(input);
        assert forall|x: u64| prefix.contains(x) implies input.contains(x) by {
            let i = choose|i: int| 0 <= i < prefix.len() && prefix[i] == x;
            assert(input[i] == x);
        }
        assert(input.contains(a)) by {
            assert(input[input.len() - 1] == a);
        }
        if a != 0 && !kept.contains(a) && kept.len() < MAX_BENEFICIARIES {
            assert(result == kept.push(a));
            lemma_push_no_duplicates(kept, a);
            lemma_push_keeps_nonzero(kept, a);
            assert forall|x: u64| result.contains(x) implies input.contains(x) by {
                let i = choose|i: int| 0 <= i < result.len() && result[i] == x;
                if i < kept.len() {
                    assert(kept.contains(x));
                }
            }
        } else {
            assert(result == kept);
        }
    }
}

/// A supplied list that is already valid — deduplicated, free of zero, and
/// within the cap — is retained whole, in order.
pub proof fn lemma_select_beneficiaries_id(input: Seq<u64>)
    requires
        input.no_duplicates(),
        !input.contains(0),
        input.len() <= MAX_BENEFICIARIES,
    ensures
        select_beneficiaries(input) == input,
    decreases input.len(),
{
    if input.len() == 0 {
        assert(select_beneficiaries(input) =~= input);
    } else {
        let prefix = input.drop_last();
        let a = input.last();
        assert(prefix.no_duplicates()) by {
            assert(forall|i: int| 0 <= i < prefix.len() ==> prefix[i] == input[i]);
        }
        assert(!prefix.contains(0)) by {
            if prefix.contains(0) {
                let i = choose|i: int| 0 <= i < prefix.len() && prefix[i] == 0;
                assert(input[i] == 0);
            }
        }
        lemma_select_beneficiaries_id(prefix);
        assert(a != 0) by {
            assert(input[input.len() - 1] == a);
        }
        assert(!prefix.contains(a)) by {
            if prefix.contains(a) {
                let i = choose|i: int| 0 <= i < prefix.len() && prefix[i] == a;
                assert(input[i] == input[input.len() - 1]);
            }
        }
        assert(select_beneficiaries(input) == prefix.push(a));
        assert(prefix.push(a) =~= input);
    }
}

/// The supplied list with the first occurrence of `a` removed, and the
/// order of the rest kept.
pub open spec fn remove_first(s: Seq<u64>, a: u64) -> Seq<u64>
    decreases s.len(),
{
    if s.len() == 0 {
        s
    } else if s[0] == a {
        s.drop_first()
    } else {
        seq![s[0]] + remove_first(s.drop_first(), a)
    }
}

/// Where `i` is the first index holding `a`, removing the first occurrence
/// of `a` is removal at `i`.
pub proof fn lemma_remove_first_at(s: Seq<u64>, a: u64, i: int)
    requires
        0 <= i < s.len(),
        s[i] == a,
        forall|j: int| 0 <= j < i ==> s[j] != a,
    ensures
        remove_first(s, a) == s.remove(i),
    decreases i,
{
    if i == 0 {
        assert(s.remove(0) =~= s.drop_first());
    } else {
        let t = s.drop_first();
        assert(t[i - 1] == a);
        assert(forall|j: int| 0 <= j < i - 1 ==> t[j] == s[j + 1]);
        lemma_remove_first_at(t, a, i - 1);
        assert(seq![s[0]] + t.remove(i - 1) =~= s.remove(i));
    }
}

/// Removing a present address shortens the list by one, keeps it
/// duplicate-free, removes that address, and touches no other membership.
pub proof fn lemma_remove_first_props(s: Seq<u64>, a: u64)
    requires
        s.no_duplicates(),
        s.contains(a),
    ensures
        remove_first(s, a).len() == s.len() - 1,
        remove_first(s, a).no_duplicates(),
        !remove_first(s, a).contains(a),
        forall|x: u64| x != a ==> (remove_first(s, a).contains(x) <==> s.contains(x)),
{
    let i = choose|i: int| 0 <= i < s.len() && s[i] == a;
    assert forall|j: int| 0 <= j < i implies s[j] != a by {
        if s[j] == a {
            assert(s[j] == s[i]);
        }
    }
    lemma_remove_first_at(s, a, i);
    let r = s.remove(i);
    assert(forall|j: int| 0 <= j < i ==> r[j] == s[j]);
    assert(forall|j: int| i <= j < r.len() ==> r[j] == s[j + 1]);
    assert(r.no_duplicates()) by {
        assert forall|p: int, q: int| 0 <= p < r.len() && 0 <= q < r.len() && p != q
            implies r[p] != r[q] by {
            let sp = if p < i { p } else { p + 1 };
            let sq = if q < i { q } else { q + 1 };
            assert(r[p] == s[sp] && r[q] == s[sq] && sp != sq);
        }
    }
    assert(!r.contains(a)) by {
        if r.contains(a) {
            let j = choose|j: int| 0 <= j < r.len() && r[j] == a;
            let sj = if j < i { j } else { j + 1 };
            assert(s[sj] == a && sj != i && s[i] == a);
        }
    }
    assert forall|x: u64| x != a implies (r.contains(x) <==> s.contains(x)) by {
        if r.contains(x) {
            let j = choose|j: int| 0 <= j < r.len() && r[j] == x;
            let sj = if j < i { j } else { j + 1 };
            assert(s[sj] == x);
        }
        if s.contains(x) {
            let j = choose|j: int| 0 <= j < s.len() && s[j] == x;
            if j < i {
                assert(r[j] == x);
            } else {
                assert(j != i);
                assert(r[j - 1] == x);
            }
        }
    }
}

/// Whether the address list holds `a`.
pub fn addrs_contain(v: &Vec<u64>, a: u64) -> (r: bool)
    ensures
        r == v@.contains(a),
{
    let mut i: usize = 0;
    while i < v.len()
        invariant
            i <= v.len(),
            forall|j: int| 0 <= j < i ==> v@[j] != a,
        decreases v.len() - i,
    {
        if v[i] == a {
            return true;
        }
        i += 1;
    }
    false
}

/// The first index of the address list holding `a`.
pub fn find_addr(v: &Vec<u64>, a: u64) -> (r: usize)
    requires
        v@.contains(a),
    ensures
        r < v@.len(),
        v@[r as int] == a,
        forall|j: int| 0 <= j < r ==> v@[j] != a,
{
    let mut i: usize = 0;
    while i < v.len()
        invariant
            i <= v.len(),
            forall|j: int| 0 <= j < i ==> v@[j] != a,
            v@.contains(a),
        decreases v.len() - i,
    {
        if v[i] == a {
            return i;
        }
        i += 1;
    }
    proof {
        let w = choose|w: int| 0 <= w < v@.len() && v@[w] == a;
        assert(false);
    }
    0
}

/// Removes the first occurrence of `a` from the address list.
pub fn remove_addr(v: &mut Vec<u64>, a: u64)
    requires
        old(v)@.contains(a),
    ensures
        final(v)@ == remove_first(old(v)@, a),
{
    let i = find_addr(v, a);
    proof {
        lemma_remove_first_at(v@, a, i as int);
    }
    v.remove(i);
}

/// Copies an address list.
pub fn copy_addrs(v: &Vec<u64>) -> (r: Vec<u64>)
    ensures
        r@ == v@,
{
    let mut r: Vec<u64> = Vec::new();
    let mut i: usize = 0;
    while i < v.len()
        invariant
            i <= v.len(),
            r@ == v@.subrange(0, i as int),
        decreases v.len() - i,
    {
        r.push(v[i]);
        proof {
            assert(v@.subrange(0, (i + 1) as int) =~= v@.subrange(0, i as int).push(v@[i as int]));
        }
        i += 1;
    }
    proof {
        assert(v@.subrange(0, v@.len() as int) =~= v@);
    }
    r
}

/// The beneficiary list retained from a supplied one, executably.
pub fn select_beneficiary_list(input: &Vec<u64>) -> (r: Vec<u64>)
    ensures
        r@ == select_beneficiaries(input@),
{
    let mut r: Vec<u64> = Vec::new();
    let mut i: usize = 0;
    while i < input.len()
        invariant
            i <= input.len(),
            r@ == select_beneficiaries(input@.subrange(0, i as int)),
        decreases input.len() - i,
    {
        let a = input[i];
        proof {
            let next = input@.subrange(0, (i + 1) as int);
            assert(next.drop_last() =~= input@.subrange(0, i as int));
            assert(next.last() == input@[i as int]);
        }
        if a != 0 && r.len() < MAX_BENEFICIARIES && !addrs_contain(&r, a) {
            r.push(a);
        }
        i += 1;
    }
    proof {
        assert(input@.subrange(0, input@.len() as int) =~= input@);
    }
    r
}

impl InheritanceConfig {
    /// A copy of this record, equal under the view.
    pub fn snapshot(&self) -> (r: InheritanceConfig)
        ensures
            r@ == self@,
    {
        InheritanceConfig {
            beneficiaries: copy_addrs(&self.beneficiaries),
            claimed: copy_addrs(&self.claimed),
            last_reset: self.last_reset,
            timeout_period: self.timeout_period,
            balance: self.balance,
            per_beneficiary_share: self.per_beneficiary_share,
            protocol_share: self.protocol_share,
            share_locked: self.share_locked,
        }
    }

    /// Whether the plan is expired at the supplied ledger time.
    pub fn expired(&self, now: u64) -> (r: bool)
        ensures
            r == self@.expired(now),
    {
        (now as u128) >= (self.last_reset as u128) + (self.timeout_period as u128)
    }
}

} // verus!
