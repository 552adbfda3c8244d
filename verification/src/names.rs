use vstd::prelude::*;

use crate::common::SymbolRef;
use crate::text::{dec_digits, lemma_dec_digits_len, lemma_dec_digits_injective, u64_to_string};

verus! {

/// The name bound to `r` by an association list, first entry winning.
pub open spec fn assoc_name(s: Seq<(SymbolRef, Seq<char>)>, r: SymbolRef) -> Option<Seq<char>>
    decreases s.len(),
{
    if s.len() == 0 {
        None
    } else if s[0].0 == r {
        Some(s[0].1)
    } else {
        assoc_name(s.drop_first(), r)
    }
}

/// The character sequences of a list of strings.
pub open spec fn strs(v: Seq<String>) -> Seq<Seq<char>> {
    v.map_values(|s: String| s@)
}

/// The ghost pairs of a list of (symbol reference, name) entries.
pub open spec fn pairs_model(v: Seq<(SymbolRef, String)>) -> Seq<(SymbolRef, Seq<char>)> {
    v.map_values(|p: (SymbolRef, String)| (p.0, p.1@))
}

pub proof fn lemma_assoc_skip(s: Seq<(SymbolRef, Seq<char>)>, r: SymbolRef, i: int)
    requires
        0 <= i <= s.len(),
        forall|j: int| 0 <= j < i ==> (#[trigger] s[j]).0 != r,
    ensures
        assoc_name(s, r) == assoc_name(s.skip(i), r),
    decreases i,
{
    if i > 0 {
        lemma_assoc_skip(s.drop_first(), r, i - 1);
        assert(s.drop_first().skip(i - 1) =~= s.skip(i));
        assert(forall|j: int|
            0 <= j < i - 1 ==> (#[trigger] s.drop_first()[j]).0 == s[j + 1].0 && s[j + 1].0 != r);
    } else {
        assert(s.skip(0) =~= s);
    }
}

pub proof fn lemma_assoc_push(s: Seq<(SymbolRef, Seq<char>)>, r: SymbolRef, k: SymbolRef, v: Seq<char>)
    ensures
        assoc_name(s.push((k, v)), r) == (if assoc_name(s, r) is Some {
            assoc_name(s, r)
        } else if r == k {
            Some(v)
        } else {
            None::<Seq<char>>
        }),
    decreases s.len(),
{
    if s.len() == 0 {
        assert(s.push((k, v))[0] == (k, v));
        assert(s.push((k, v)).drop_first() =~= Seq::<(SymbolRef, Seq<char>)>::empty());
    } else {
        assert(s.push((k, v))[0] == s[0]);
        assert(s.push((k, v)).drop_first() =~= s.drop_first().push((k, v)));
        lemma_assoc_push(s.drop_first(), r, k, v);
    }
}

/// A bound name stands somewhere in the list.
pub proof fn lemma_assoc_mem(s: Seq<(SymbolRef, Seq<char>)>, r: SymbolRef)
    requires
        assoc_name(s, r) is Some,
    ensures
        exists|i: int|
            0 <= i < s.len() && (#[trigger] s[i]).0 == r && s[i].1 == assoc_name(s, r)->0,
    decreases s.len(),
{
    if s[0].0 == r {
        assert(s[0].0 == r && s[0].1 == assoc_name(s, r)->0);
    } else {
        lemma_assoc_mem(s.drop_first(), r);
        let i = choose|i: int|
            0 <= i < s.drop_first().len() && (#[trigger] s.drop_first()[i]).0 == r
                && s.drop_first()[i].1 == assoc_name(s.drop_first(), r)->0;
        assert(s[i + 1] == s.drop_first()[i]);
    }
}

/// An unbound key stands nowhere in the list.
pub proof fn lemma_assoc_none(s: Seq<(SymbolRef, Seq<char>)>, r: SymbolRef)
    requires
        assoc_name(s, r) is None,
    ensures
        forall|i: int| 0 <= i < s.len() ==> (#[trigger] s[i]).0 != r,
    decreases s.len(),
{
    if s.len() > 0 {
        lemma_assoc_none(s.drop_first(), r);
        assert(forall|i: int|
            1 <= i < s.len() ==> (#[trigger] s[i]) == s.drop_first()[i - 1]);
    }
}

/// The `k`-th disambiguation of a preferred name: the name itself for `k == 0`,
/// else the name with a numbered suffix.
pub open spec fn mangled(name: Seq<char>, k: nat) -> Seq<char> {
    if k == 0 {
        name
    } else {
        name + seq!['$'] + dec_digits(k)
    }
}

proof fn lemma_mangled_injective(name: Seq<char>, k1: nat, k2: nat)
    requires
        k1 != k2,
    ensures
        mangled(name, k1) != mangled(name, k2),
{
    let ln = name.len() as int;
    if k1 == 0 {
        lemma_dec_digits_len(k2);
        assert(mangled(name, k2).len() >= ln + 2);
    } else if k2 == 0 {
        lemma_dec_digits_len(k1);
        assert(mangled(name, k1).len() >= ln + 2);
    } else {
        if mangled(name, k1) == mangled(name, k2) {
            assert(dec_digits(k1) =~= mangled(name, k1).subrange(
                ln + 1,
                mangled(name, k1).len() as int,
            ));
            assert(dec_digits(k2) =~= mangled(name, k2).subrange(
                ln + 1,
                mangled(name, k2).len() as int,
            ));
            lemma_dec_digits_injective(k1, k2);
            assert(false);
        }
    }
}

/// The first `k' >= k` whose disambiguation of `name` is not yet used, found
/// within `fuel` probes.
pub open spec fn first_free(used: Seq<Seq<char>>, name: Seq<char>, k: nat, fuel: nat) -> nat
    decreases fuel,
{
    if fuel == 0 {
        k
    } else if !used.contains(mangled(name, k)) {
        k
    } else {
        first_free(used, name, k + 1, (fuel - 1) as nat)
    }
}

proof fn lemma_first_free_prefix_used(used: Seq<Seq<char>>, name: Seq<char>, k: nat, fuel: nat)
    ensures
        forall|j: nat|
            k <= j < first_free(used, name, k, fuel) ==> used.contains(#[trigger] mangled(name, j)),
        first_free(used, name, k, fuel) <= k + fuel,
    decreases fuel,
{
    if fuel > 0 && used.contains(mangled(name, k)) {
        lemma_first_free_prefix_used(used, name, k + 1, (fuel - 1) as nat);
    }
}

proof fn lemma_first_free_ok(
    used: Seq<Seq<char>>,
    name: Seq<char>,
    k: nat,
    fuel: nat,
    s: Set<Seq<char>>,
)
    requires
        s.finite(),
        fuel > s.len(),
        forall|j: nat|
            j >= k && used.contains(#[trigger] mangled(name, j)) ==> s.contains(mangled(name, j)),
    ensures
        !used.contains(mangled(name, first_free(used, name, k, fuel))),
    decreases fuel,
{
    if used.contains(mangled(name, k)) {
        let s2 = s.remove(mangled(name, k));
        assert(s.contains(mangled(name, k)));
        assert forall|j: nat|
            j >= k + 1 && used.contains(#[trigger] mangled(name, j)) implies s2.contains(
            mangled(name, j),
        ) by {
            lemma_mangled_injective(name, j, k);
        }
        lemma_first_free_ok(used, name, k + 1, (fuel - 1) as nat, s2);
    }
}

/// The result of assigning, in order, a disambiguated output name to each
/// still-unnamed reference of `wanted`, never reusing a name of `used`.
pub open spec fn spec_assign(
    wanted: Seq<(SymbolRef, Seq<char>)>,
    entries: Seq<(SymbolRef, Seq<char>)>,
    used: Seq<Seq<char>>,
) -> Seq<(SymbolRef, Seq<char>)>
    decreases wanted.len(),
{
    if wanted.len() == 0 {
        entries
    } else if assoc_name(entries, wanted[0].0) is Some {
        spec_assign(wanted.drop_first(), entries, used)
    } else {
        let cand = mangled(wanted[0].1, first_free(used, wanted[0].1, 0, used.len() + 1));
        spec_assign(wanted.drop_first(), entries.push((wanted[0].0, cand)), used.push(cand))
    }
}

/// The collision-free mapping from symbol reference to the name it is emitted
/// with inside one chunk. No two distinct references share a name, and one
/// reference is named the same everywhere it appears in the chunk.
pub struct CanonicalNames {
    entries: Vec<(SymbolRef, String)>,
}

impl CanonicalNames {
    /// The entries, in assignment order.
    pub closed spec fn model(&self) -> Seq<(SymbolRef, Seq<char>)> {
        pairs_model(self.entries@)
    }

    /// The name this chunk emits `r` with, if `r` was assigned one.
    pub open spec fn spec_name(&self, r: SymbolRef) -> Option<Seq<char>> {
        assoc_name(self.model(), r)
    }

    /// Well-formed: keys are distinct and assigned names are distinct.
    pub open spec fn wf(&self) -> bool {
        &&& forall|i: int, j: int|
            0 <= i < j < self.model().len() ==> (#[trigger] self.model()[i]).0 != (
            #[trigger] self.model()[j]).0
        &&& forall|i: int, j: int|
            0 <= i < j < self.model().len() ==> (#[trigger] self.model()[i]).1 != (
            #[trigger] self.model()[j]).1
    }

    /// A map with no assignments yet.
    pub fn empty() -> (r: Self)
        ensures
            r.wf(),
            r.model() == Seq::<(SymbolRef, Seq<char>)>::empty(),
    {
        let r = CanonicalNames { entries: Vec::new() };
        proof {
            assert(r.model() =~= Seq::<(SymbolRef, Seq<char>)>::empty());
        }
        r
    }

    /// The canonical name of `r` inside this chunk.
    pub fn get(&self, r: SymbolRef) -> (o: Option<String>)
        ensures
            match o {
                Some(n) => self.spec_name(r) == Some(n@),
                None => self.spec_name(r) is None,
            },
    {
        let n = self.entries.len();
        let mut i: usize = 0;
        while i < n
            invariant
                i <= n,
                n == self.entries@.len(),
                forall|j: int| 0 <= j < i ==> (#[trigger] self.model()[j]).0 != r,
            decreases n - i,
        {
            if self.entries[i].0 == r {
                proof {
                    lemma_assoc_skip(self.model(), r, i as int);
                    assert(self.model().skip(i as int)[0] == self.model()[i as int]);
                }
                return Some(self.entries[i].1.clone());
            }
            assert(self.model()[i as int].0 != r);
            i = i + 1;
        }
        proof {
            lemma_assoc_skip(self.model(), r, n as int);
            assert(self.model().skip(n as int) =~= Seq::<(SymbolRef, Seq<char>)>::empty());
        }
        None
    }

    /// Uniqueness: within one chunk, two distinct references never share an
    /// emitted name.
    pub proof fn lemma_unique(&self, r1: SymbolRef, r2: SymbolRef)
        requires
            self.wf(),
            r1 != r2,
            self.spec_name(r1) is Some,
            self.spec_name(r2) is Some,
        ensures
            self.spec_name(r1) != self.spec_name(r2),
    {
        lemma_assoc_mem(self.model(), r1);
        lemma_assoc_mem(self.model(), r2);
        let i1 = choose|i: int|
            0 <= i < self.model().len() && (#[trigger] self.model()[i]).0 == r1 && self.model()[i].1
                == self.spec_name(r1)->0;
        let i2 = choose|i: int|
            0 <= i < self.model().len() && (#[trigger] self.model()[i]).0 == r2 && self.model()[i].1
                == self.spec_name(r2)->0;
        assert(i1 != i2);
        if i1 < i2 {
            assert(self.model()[i1].1 != self.model()[i2].1);
        } else {
            assert(self.model()[i2].1 != self.model()[i1].1);
        }
    }
}

fn contains_str(v: &Vec<String>, x: &String) -> (r: bool)
    ensures
        r == strs(v@).contains(x@),
{
    let n = v.len();
    let mut i: usize = 0;
    while i < n
        invariant
            i <= n,
            n == v@.len(),
            forall|j: int| 0 <= j < i ==> strs(v@)[j] != x@,
        decreases n - i,
    {
        if v[i].eq(x) {
            assert(strs(v@)[i as int] == x@);
            return true;
        }
        assert(strs(v@)[i as int] != x@);
        i = i + 1;
    }
    assert(!strs(v@).contains(x@)) by {
        if strs(v@).contains(x@) {
            let j = choose|j: int| 0 <= j < strs(v@).len() && strs(v@)[j] == x@;
        }
    }
    false
}

/// Builds `mangled(name, k)` as a string.
fn mangle(name: &String, k: u64) -> (r: String)
    ensures
        r@ == mangled(name@, k as nat),
{
    if k == 0 {
        name.clone()
    } else {
        let mut r = name.clone();
        r.append("$");
        let digits = u64_to_string(k);
        r.append(digits.as_str());
        proof {
            reveal_strlit("$");
            assert(r@ =~= name@ + seq!['$'] + dec_digits(k as nat));
        }
        r
    }
}

/// Assigns each reference of `wanted`, in order, a chunk-unique output name:
/// its preferred name where that is still free, else the preferred name with
/// the first free numbered suffix. Names in `reserved` (names already present
/// in the chunk, such as imported bindings) are never assigned. A reference
/// listed twice keeps its first assignment. Deterministic: the result is a
/// function of `wanted` and `reserved` alone.
pub fn assign_canonical_names(wanted: &Vec<(SymbolRef, String)>, reserved: &Vec<String>) -> (r:
    CanonicalNames)
    requires
        reserved@.len() + wanted@.len() < usize::MAX,
    ensures
        r.wf(),
        r.model() == spec_assign(pairs_model(wanted@), Seq::empty(), strs(reserved@)),
        forall|i: int|
            0 <= i < wanted@.len() ==> r.spec_name((#[trigger] wanted@[i]).0) is Some,
        forall|rf: SymbolRef|
            #[trigger] r.spec_name(rf) is Some ==> exists|i: int|
                0 <= i < wanted@.len() && (#[trigger] wanted@[i]).0 == rf,
        forall|rf: SymbolRef, j: int|
            #![trigger r.spec_name(rf), strs(reserved@)[j]]
            r.spec_name(rf) is Some && 0 <= j < reserved@.len() ==> r.spec_name(rf)->0
                != strs(reserved@)[j],
{
    let ghost target = spec_assign(pairs_model(wanted@), Seq::empty(), strs(reserved@));
    let mut entries: Vec<(SymbolRef, String)> = Vec::new();
    let mut used: Vec<String> = Vec::new();
    let mut j: usize = 0;
    while j < reserved.len()
        invariant
            j <= reserved@.len(),
            used@.len() == j,
            forall|t: int| 0 <= t < j ==> used@[t]@ == (#[trigger] reserved@[t])@,
        decreases reserved@.len() - j,
    {
        used.push(reserved[j].clone());
        j = j + 1;
    }
    proof {
        assert(strs(used@) =~= strs(reserved@));
    }
    let n = wanted.len();
    let mut i: usize = 0;
    let mut cn = CanonicalNames { entries };
    proof {
        assert(pairs_model(wanted@).skip(0) =~= pairs_model(wanted@));
        assert(cn.model() =~= Seq::<(SymbolRef, Seq<char>)>::empty());
    }
    while i < n
        invariant
            i <= n,
            n == wanted@.len(),
            reserved@.len() + n < usize::MAX,
            cn.model().len() <= i,
            used@.len() == reserved@.len() + cn.model().len(),
            spec_assign(pairs_model(wanted@).skip(i as int), cn.model(), strs(used@)) == target,
            strs(used@) =~= strs(reserved@) + cn.model().map_values(
                |p: (SymbolRef, Seq<char>)| p.1,
            ),
            forall|t: int, j2: int|
                #![trigger cn.model()[t], strs(reserved@)[j2]]
                0 <= t < cn.model().len() && 0 <= j2 < reserved@.len() ==> cn.model()[t].1 != strs(
                    reserved@,
                )[j2],
            cn.wf(),
            forall|t: int|
                0 <= t < i ==> cn.spec_name((#[trigger] pairs_model(wanted@)[t]).0) is Some,
            forall|t: int|
                0 <= t < cn.model().len() ==> exists|w: int|
                    0 <= w < i && (#[trigger] cn.model()[t]).0 == pairs_model(wanted@)[w].0,
        decreases n - i,
    {
        let rf = wanted[i].0;
        let found = cn.get(rf);
        assert(pairs_model(wanted@).skip(i as int)[0] == pairs_model(wanted@)[i as int]);
        assert(pairs_model(wanted@).skip(i as int).drop_first() =~= pairs_model(wanted@).skip(
            i as int + 1,
        ));
        match found {
            Some(_) => {
                proof {
                    assert(spec_assign(pairs_model(wanted@).skip(i as int), cn.model(), strs(used@))
                        == spec_assign(
                        pairs_model(wanted@).skip(i as int + 1),
                        cn.model(),
                        strs(used@),
                    ));
                }
            },
            None => {
                let nm = &wanted[i].1;
                let ghost u = strs(used@);
                let ghost spec_k = first_free(u, nm@, 0, u.len() + 1);
                proof {
                    broadcast use vstd::seq_lib::seq_to_set_is_finite;

                    assert(u.len() == used@.len());
                    assert(u.to_set().len() <= u.len()) by {
                        u.lemma_cardinality_of_set();
                    }
                    assert forall|q: nat|
                        q >= 0 && u.contains(#[trigger] mangled(nm@, q)) implies u.to_set()
                        .contains(mangled(nm@, q)) by {}
                    lemma_first_free_ok(u, nm@, 0, u.len() + 1, u.to_set());
                    lemma_first_free_prefix_used(u, nm@, 0, u.len() + 1);
                    assert(spec_k <= u.len() + 1);
                }
                let mut k: u64 = 0;
                let mut cand: String = mangle(nm, 0);
                while contains_str(&used, &cand)
                    invariant
                        u == strs(used@),
                        nm@ == pairs_model(wanted@)[i as int].1,
                        k <= spec_k,
                        spec_k == first_free(u, nm@, 0, u.len() + 1),
                        cand@ == mangled(nm@, k as nat),
                        !u.contains(mangled(nm@, spec_k)),
                        forall|q: nat| q < spec_k ==> u.contains(#[trigger] mangled(nm@, q)),
                        spec_k <= u64::MAX,
                    decreases spec_k - k,
                {
                    proof {
                        assert(k != spec_k);
                    }
                    k = k + 1;
                    cand = mangle(nm, k);
                }
                proof {
                    if k < spec_k {
                        assert(u.contains(mangled(nm@, k as nat)));
                        assert(false);
                    }
                    assert(k == spec_k);
                }
                let ghost old_model = cn.model();
                let ghost old_used = used@;
                cn.entries.push((rf, cand.clone()));
                used.push(cand);
                proof {
                    assert(cn.model() =~= old_model.push((rf, cand@)));
                    assert(strs(used@) =~= strs(old_used).push(cand@));
                    assert(cn.model().map_values(|p: (SymbolRef, Seq<char>)| p.1) =~= old_model
                        .map_values(|p: (SymbolRef, Seq<char>)| p.1).push(cand@));
                    lemma_assoc_none(old_model, rf);
                    // the fresh name is no existing value and no reserved name
                    assert(!u.contains(cand@));
                    assert forall|t: int| 0 <= t < old_model.len() implies (
                    #[trigger] old_model[t]).1 != cand@ by {
                        assert(u[reserved@.len() + t] == old_model[t].1);
                    }
                    assert forall|j2: int| 0 <= j2 < reserved@.len() implies cand@ != strs(
                        reserved@,
                    )[j2] by {
                        assert(u[j2] == strs(reserved@)[j2]);
                    }
                    // the accumulator step matches the specification
                    assert(spec_assign(pairs_model(wanted@).skip(i as int), old_model, u)
                        == spec_assign(
                        pairs_model(wanted@).skip(i as int + 1),
                        old_model.push((rf, mangled(nm@, first_free(u, nm@, 0, u.len() + 1)))),
                        u.push(mangled(nm@, first_free(u, nm@, 0, u.len() + 1))),
                    ));
                    // bound names stay bound, the new one becomes bound
                    assert forall|t: int|
                        0 <= t < i + 1 implies cn.spec_name(
                        (#[trigger] pairs_model(wanted@)[t]).0,
                    ) is Some by {
                        lemma_assoc_push(old_model, pairs_model(wanted@)[t].0, rf, cand@);
                    }
                }
            },
        }
        i = i + 1;
    }
    proof {
        assert(pairs_model(wanted@).skip(n as int) =~= Seq::<(SymbolRef, Seq<char>)>::empty());
        assert(cn.model() == target);
        assert forall|t: int|
            0 <= t < wanted@.len() implies cn.spec_name((#[trigger] wanted@[t]).0) is Some by {
            assert(pairs_model(wanted@)[t].0 == wanted@[t].0);
        }
        // a bound reference comes from `wanted`
        assert forall|rf: SymbolRef| #[trigger]
            cn.spec_name(rf) is Some implies exists|w: int|
            0 <= w < wanted@.len() && (#[trigger] wanted@[w]).0 == rf by {
            lemma_assoc_mem(cn.model(), rf);
            let t = choose|t: int|
                0 <= t < cn.model().len() && (#[trigger] cn.model()[t]).0 == rf && cn.model()[t].1
                    == cn.spec_name(rf)->0;
            let w = choose|w: int|
                0 <= w < n && (#[trigger] cn.model()[t]).0 == pairs_model(wanted@)[w].0;
            assert(wanted@[w].0 == pairs_model(wanted@)[w].0);
        }
        // no bound name is a reserved name
        assert forall|rf: SymbolRef, j2: int|
            #![trigger cn.spec_name(rf), strs(reserved@)[j2]]
            cn.spec_name(rf) is Some && 0 <= j2 < reserved@.len() implies cn.spec_name(
            rf,
        )->0 != strs(reserved@)[j2] by {
            lemma_assoc_mem(cn.model(), rf);
            let t = choose|t: int|
                0 <= t < cn.model().len() && (#[trigger] cn.model()[t]).0 == rf && cn.model()[t].1
                    == cn.spec_name(rf)->0;
            assert(cn.model()[t].1 != strs(reserved@)[j2]);
        }
    }
    cn
}

} // verus!
