use vstd::prelude::*;
use vstd::string::*;
use rand::rngs::StdRng;
use rand::{RngCore, SeedableRng};
use crate::template::Template;
use crate::text::{ends_with_text, join, joined, same_text, slice_text};
use crate::weights::{share, weight_for, Weight, Weights, CERTAIN};

verus! {

/// The first word of rand's `StdRng` seeded with `seed`.
pub uninterp spec fn seeded_word(seed: u64) -> u64;

/// Relies on rand's `StdRng::seed_from_u64` and `RngCore::next_u64`: a
/// generator seeded from a number yields the same first word every time.
#[verifier::external_body]
fn first_word(seed: u64) -> (r: u64)
    ensures
        r == seeded_word(seed),
{
    StdRng::seed_from_u64(seed).next_u64()
}

/// The `k`-th word of the stream that `seed` starts.
pub open spec fn stream_word(seed: u64, k: u64) -> u64 {
    seeded_word(seed.wrapping_add(k))
}

/// The `k`-th word of the stream that `seed` starts: the first word of the
/// generator seeded with `seed + k` (wrapping).
pub fn draw(seed: u64, k: u64) -> (r: u64)
    ensures
        r == stream_word(seed, k),
{
    first_word(seed.wrapping_add(k))
}

/// Index of the first element equal to `x`.
pub open spec fn first_match<A>(s: Seq<A>, x: A) -> Option<nat>
    decreases s.len(),
{
    if s.len() == 0 {
        None
    } else {
        match first_match(s.drop_last(), x) {
            Some(i) => Some(i),
            None => if s.last() == x {
                Some((s.len() - 1) as nat)
            } else {
                None
            },
        }
    }
}

pub proof fn lemma_first_match_prefix<A>(s: Seq<A>, k: int, x: A)
    requires
        0 <= k <= s.len(),
        first_match(s.take(k), x) is Some,
    ensures
        first_match(s, x) == first_match(s.take(k), x),
    decreases s.len(),
{
    if s.len() > k {
        assert(s.drop_last().take(k) =~= s.take(k));
        lemma_first_match_prefix(s.drop_last(), k, x);
    } else {
        assert(s.take(k) =~= s);
    }
}

pub proof fn lemma_first_match_found<A>(s: Seq<A>, x: A)
    ensures
        first_match(s, x) matches Some(i) ==> i < s.len() && s[i as int] == x,
        first_match(s, x) is None ==> forall|j: int| 0 <= j < s.len() ==> s[j] != x,
    decreases s.len(),
{
    if s.len() > 0 {
        lemma_first_match_found(s.drop_last(), x);
        if first_match(s.drop_last(), x) is None {
            assert forall|j: int| 0 <= j < s.len() - 1 implies s[j] != x by {
                assert(s[j] == s.drop_last()[j]);
            }
        }
    }
}

/// Looks up the first element of `s` whose key is `x`, scanning from the front.
fn position_of(keys: &Vec<String>, x: &str) -> (r: Option<usize>)
    ensures
        first_match(keys@.map_values(|k: String| k@), x@) == (match r {
            Some(k) => Some(k as nat),
            None => None::<nat>,
        }),
        r matches Some(k) ==> k < keys@.len(),
{
    let ghost ks = keys@.map_values(|k: String| k@);
    let mut i: usize = 0;
    assert(ks.take(0) =~= Seq::<Seq<char>>::empty());
    while i < keys.len()
        invariant
            i <= keys@.len(),
            ks == keys@.map_values(|k: String| k@),
            first_match(ks.take(i as int), x@) is None,
        decreases keys@.len() - i,
    {
        assert(ks.take(i + 1).drop_last() =~= ks.take(i as int));
        assert(ks[i as int] == keys@[i as int]@);
        if same_text(keys[i].as_str(), x) {
            proof {
                lemma_first_match_prefix(ks, i + 1, x@);
            }
            return Some(i);
        }
        i = i + 1;
    }
    assert(ks.take(i as int) =~= ks);
    None
}

/// All the variants of one feature.
pub struct FeatureSet {
    pub name: String,
    pub variant_names: Vec<String>,
    pub templates: Vec<Template>,
}

/// The templates known to a generation: features, each with named variants.
/// A feature `<f>_back` holds the back companions of the variants of `f`.
pub struct Registry {
    pub features: Vec<FeatureSet>,
}

impl Registry {
    pub open spec fn wf(&self) -> bool {
        forall|i: int| 0 <= i < self.features@.len() ==> (#[trigger] self.features@[i]).variant_names@.len()
            == self.features@[i].templates@.len()
    }

    pub open spec fn names(&self) -> Seq<Seq<char>> {
        self.features@.map_values(|f: FeatureSet| f.name@)
    }

    pub open spec fn variant_names_of(&self, i: int) -> Seq<Seq<char>> {
        self.features@[i].variant_names@.map_values(|v: String| v@)
    }
}

/// A feature named `f_back` is the back companion of `f`.
pub open spec fn is_back_name(name: Seq<char>) -> bool {
    name.len() >= 5 && name.skip(name.len() - 5) == "_back"@
}

pub open spec fn front_name(name: Seq<char>) -> Seq<char> {
    if is_back_name(name) {
        name.take(name.len() - 5)
    } else {
        name
    }
}

pub open spec fn total_share(ws: Seq<Weight>) -> nat
    decreases ws.len(),
{
    if ws.len() == 0 {
        0
    } else {
        total_share(ws.drop_last()) + share(ws.last())
    }
}

/// The first index at which the running total of shares exceeds `t`.
pub open spec fn pick(ws: Seq<Weight>, t: nat) -> Option<nat>
    decreases ws.len(),
{
    if ws.len() == 0 {
        None
    } else {
        match pick(ws.drop_last(), t) {
            Some(i) => Some(i),
            None => if total_share(ws) > t {
                Some((ws.len() - 1) as nat)
            } else {
                None
            },
        }
    }
}

proof fn lemma_pick_prefix(ws: Seq<Weight>, k: int, t: nat)
    requires
        0 <= k <= ws.len(),
        pick(ws.take(k), t) is Some,
    ensures
        pick(ws, t) == pick(ws.take(k), t),
    decreases ws.len(),
{
    if ws.len() > k {
        assert(ws.drop_last().take(k) =~= ws.take(k));
        lemma_pick_prefix(ws.drop_last(), k, t);
    } else {
        assert(ws.take(k) =~= ws);
    }
}

proof fn lemma_pick_some_total(ws: Seq<Weight>, t: nat)
    ensures
        total_share(ws) > t ==> pick(ws, t) is Some,
    decreases ws.len(),
{
    if ws.len() > 0 {
        lemma_pick_some_total(ws.drop_last(), t);
    }
}

/// The variant a weighted choice takes: the first that is always taken, else
/// one drawn in proportion to its share with `word`; none when no share is
/// positive.
pub open spec fn variant_pick(ws: Seq<Weight>, word: u64) -> Option<nat> {
    match first_match(ws, Weight::Always) {
        Some(j) => Some(j),
        None => if total_share(ws) == 0 {
            None
        } else {
            pick(ws, (word as nat) % total_share(ws))
        },
    }
}

/// Picks a variant index by weight.
pub fn pick_variant(ws: &Vec<Weight>, word: u64) -> (r: Option<usize>)
    requires
        forall|i: int| 0 <= i < ws@.len() ==> share(#[trigger] ws@[i]) <= CERTAIN,
    ensures
        match variant_pick(ws@, word) {
            Some(j) => r == Some(j as usize) && j < ws@.len(),
            None => r is None,
        },
{
    let mut i: usize = 0;
    let mut total: u128 = 0;
    assert(ws@.take(0) =~= Seq::<Weight>::empty());
    while i < ws.len()
        invariant
            i <= ws@.len(),
            first_match(ws@.take(i as int), Weight::Always) is None,
            total == total_share(ws@.take(i as int)),
            total <= i * (CERTAIN as nat),
            forall|k: int| 0 <= k < ws@.len() ==> share(#[trigger] ws@[k]) <= CERTAIN,
        decreases ws@.len() - i,
    {
        assert(ws@.take(i + 1).drop_last() =~= ws@.take(i as int));
        match ws[i] {
            Weight::Always => {
                proof {
                    lemma_first_match_prefix(ws@, i + 1, Weight::Always);
                }
                return Some(i);
            },
            Weight::Sometimes(p) => {
                assert(share(ws@[i as int]) <= CERTAIN);
                assert(i * (CERTAIN as nat) + CERTAIN == (i + 1) * (CERTAIN as nat)) by (nonlinear_arith);
                assert(i * (CERTAIN as nat) <= 0x1_0000_0000_0000_0000 * (CERTAIN as nat)) by (nonlinear_arith)
                    requires i <= 0x1_0000_0000_0000_0000;
                total = total + p as u128;
            },
        }
        i = i + 1;
    }
    assert(ws@.take(i as int) =~= ws@);
    if total == 0 {
        return None;
    }
    let target: u128 = (word as u128) % total;
    let mut j: usize = 0;
    let mut running: u128 = 0;
    assert(ws@.take(0) =~= Seq::<Weight>::empty());
    while j < ws.len()
        invariant
            j <= ws@.len(),
            total == total_share(ws@),
            target < total,
            target as nat == (word as nat) % (total as nat),
            first_match(ws@, Weight::Always) is None,
            running == total_share(ws@.take(j as int)),
            running <= target,
            pick(ws@.take(j as int), target as nat) is None,
            total <= ws@.len() * (CERTAIN as nat),
            ws@.len() <= usize::MAX,
            forall|k: int| 0 <= k < ws@.len() ==> share(#[trigger] ws@[k]) <= CERTAIN,
        decreases ws@.len() - j,
    {
        assert(ws@.take(j + 1).drop_last() =~= ws@.take(j as int));
        let s: u128 = match ws[j] {
            Weight::Always => 0,
            Weight::Sometimes(p) => p as u128,
        };
        assert(s == share(ws@[j as int]));
        running = running + s;
        assert(total_share(ws@.take(j + 1)) == running);
        if running > target {
            assert(pick(ws@.take(j + 1), target as nat) == Some(j as nat));
            assert(target as nat == (word as nat) % total_share(ws@));
            proof {
                lemma_pick_prefix(ws@, j + 1, target as nat);
            }
            return Some(j);
        }
        j = j + 1;
    }
    proof {
        assert(ws@.take(j as int) =~= ws@);
        lemma_pick_some_total(ws@, target as nat);
    }
    None
}

/// A memoized seed: the `(feature, variant selector)` key and its seed.
pub struct SeedEntry {
    name: String,
    variant: String,
    seed: u64,
}

pub type SeedView = (Seq<char>, Seq<char>, u64);

pub open spec fn seed_keys(m: Seq<SeedView>) -> Seq<(Seq<char>, Seq<char>)> {
    m.map_values(|e: SeedView| (e.0, e.1))
}

/// The seed of a key: the memoized one, else the next word of the stream
/// (one word per key memoized so far).
pub open spec fn seed_for(m: Seq<SeedView>, origin: u64, name: Seq<char>, variant: Seq<char>) -> u64 {
    match first_match(seed_keys(m), (name, variant)) {
        Some(i) => m[i as int].2,
        None => stream_word(origin, m.len() as u64),
    }
}

/// The memo after the seed of a key was asked for.
pub open spec fn memo_after(m: Seq<SeedView>, origin: u64, name: Seq<char>, variant: Seq<char>) -> Seq<
    SeedView,
> {
    match first_match(seed_keys(m), (name, variant)) {
        Some(_) => m,
        None => m.push((name, variant, stream_word(origin, m.len() as u64))),
    }
}

/// `b` keeps every entry of `a`, in place.
pub open spec fn extends(a: Seq<SeedView>, b: Seq<SeedView>) -> bool {
    a.len() <= b.len() && b.take(a.len() as int) == a
}

/// Whether a site with this seed is taken at `full`.
pub open spec fn site_taken(rules: Seq<(Seq<char>, Weight)>, full: Seq<char>, seed: u64) -> bool {
    match weight_for(rules, full) {
        Weight::Always => true,
        Weight::Sometimes(p) => (stream_word(seed, 0) as nat) % (CERTAIN as nat) < p,
    }
}

/// The weight of each variant name under `full`.
pub open spec fn variant_weights(
    rules: Seq<(Seq<char>, Weight)>,
    full: Seq<char>,
    names: Seq<Seq<char>>,
) -> Seq<Weight> {
    names.map_values(|v: Seq<char>| weight_for(rules, joined(full, v)))
}

/// The template that a slot asking for `name` gets at `path`, as (feature
/// index, variant index, child path). A name ending in `_back` asks for the
/// back companion of the variant chosen for its front feature.
pub open spec fn chosen(
    reg: Registry,
    rules: Seq<(Seq<char>, Weight)>,
    path: Seq<char>,
    name: Seq<char>,
    seed: u64,
) -> Option<(nat, nat, Seq<char>)> {
    let base = front_name(name);
    let full = joined(path, base);
    if !site_taken(rules, full, seed) {
        None
    } else {
        match first_match(reg.names(), base) {
            None => None,
            Some(fi) => match variant_pick(
                variant_weights(rules, full, reg.variant_names_of(fi as int)),
                stream_word(seed, 1),
            ) {
                None => None,
                Some(vi) => {
                    let vname = reg.variant_names_of(fi as int)[vi as int];
                    if is_back_name(name) {
                        match first_match(reg.names(), name) {
                            None => None,
                            Some(bi) => match first_match(reg.variant_names_of(bi as int), vname) {
                                None => None,
                                Some(bj) => Some((bi, bj, joined(joined(path, name), vname))),
                            },
                        }
                    } else {
                        Some((fi, vi, joined(full, vname)))
                    }
                },
            },
        }
    }
}

/// Whether an optional node named `name` is kept at `path`.
pub open spec fn kept(rules: Seq<(Seq<char>, Weight)>, path: Seq<char>, name: Seq<char>, seed: u64) -> bool {
    site_taken(rules, joined(joined(path, "option"@), name), seed)
}

/// Position of the feature called `name`.
fn find_feature(reg: &Registry, name: &str) -> (r: Option<usize>)
    ensures
        first_match(reg.names(), name@) == (match r {
            Some(k) => Some(k as nat),
            None => None::<nat>,
        }),
        r matches Some(k) ==> k < reg.features@.len(),
{
    let ghost ks = reg.names();
    let mut i: usize = 0;
    assert(ks.take(0) =~= Seq::<Seq<char>>::empty());
    while i < reg.features.len()
        invariant
            i <= reg.features@.len(),
            ks == reg.names(),
            first_match(ks.take(i as int), name@) is None,
        decreases reg.features@.len() - i,
    {
        assert(ks.take(i + 1).drop_last() =~= ks.take(i as int));
        assert(ks[i as int] == reg.features@[i as int].name@);
        if same_text(reg.features[i].name.as_str(), name) {
            proof {
                lemma_first_match_prefix(ks, i + 1, name@);
            }
            return Some(i);
        }
        i = i + 1;
    }
    assert(ks.take(i as int) =~= ks);
    None
}

/// The state of one face generation: the templates and weights it reads, the
/// seed that starts its stream, and the memo of seeds per
/// `(feature, variant selector)`.
pub struct GenerationContext<'a> {
    registry: &'a Registry,
    weights: &'a Weights,
    seeds: Vec<SeedEntry>,
    origin: u64,
}

impl<'a> GenerationContext<'a> {
    pub closed spec fn memo(&self) -> Seq<SeedView> {
        self.seeds@.map_values(|e: SeedEntry| (e.name@, e.variant@, e.seed))
    }

    pub closed spec fn origin(&self) -> u64 {
        self.origin
    }

    pub closed spec fn registry(&self) -> Registry {
        *self.registry
    }

    pub closed spec fn rules(&self) -> Seq<(Seq<char>, Weight)> {
        self.weights@
    }

    pub closed spec fn wf(&self) -> bool {
        self.registry.wf() && self.weights.wf()
    }

    /// The templates this context chooses from.
    pub fn registry_ref(&self) -> (r: &'a Registry)
        ensures
            *r == self.registry(),
            self.wf() ==> r.wf(),
    {
        self.registry
    }

    /// A fresh context whose seeds come from the stream that `origin` starts.
    pub fn new(registry: &'a Registry, weights: &'a Weights, origin: u64) -> (r: GenerationContext<'a>)
        requires
            registry.wf(),
            weights.wf(),
        ensures
            r.wf(),
            r.memo() == Seq::<SeedView>::empty(),
            r.origin() == origin,
            r.registry() == *registry,
            r.rules() == weights@,
    {
        let r = GenerationContext { registry, weights, seeds: Vec::new(), origin };
        assert(r.memo() =~= Seq::<SeedView>::empty());
        r
    }

    /// The seed of `(name, variant)`, memoized on first use.
    fn seed(&mut self, name: &str, variant: &str) -> (r: u64)
        ensures
            r == seed_for(old(self).memo(), old(self).origin, name@, variant@),
            final(self).memo() == memo_after(old(self).memo(), old(self).origin, name@, variant@),
            final(self).origin == old(self).origin,
            final(self).registry == old(self).registry,
            final(self).weights == old(self).weights,
    {
        let ghost m = self.memo();
        let ghost ks = seed_keys(m);
        let ghost key = (name@, variant@);
        let mut i: usize = 0;
        assert(ks.take(0) =~= Seq::<(Seq<char>, Seq<char>)>::empty());
        while i < self.seeds.len()
            invariant
                i <= self.seeds@.len(),
                m == self.memo(),
                ks == seed_keys(m),
                key == (name@, variant@),
                m.len() == self.seeds@.len(),
                first_match(ks.take(i as int), key) is None,
            decreases self.seeds@.len() - i,
        {
            assert(ks.take(i + 1).drop_last() =~= ks.take(i as int));
            assert(m[i as int] == (self.seeds@[i as int].name@, self.seeds@[i as int].variant@, self.seeds@[i as int].seed));
            assert(ks[i as int] == (self.seeds@[i as int].name@, self.seeds@[i as int].variant@));
            let same_name = same_text(self.seeds[i].name.as_str(), name);
            let same_variant = same_text(self.seeds[i].variant.as_str(), variant);
            if same_name && same_variant {
                proof {
                    lemma_first_match_prefix(ks, i + 1, key);
                }
                return self.seeds[i].seed;
            }
            i = i + 1;
        }
        assert(ks.take(i as int) =~= ks);
        let fresh = draw(self.origin, self.seeds.len() as u64);
        self.seeds.push(
            SeedEntry { name: String::from_str(name), variant: String::from_str(variant), seed: fresh },
        );
        assert(self.memo() =~= m.push((name@, variant@, fresh)));
        fresh
    }

    /// Whether the weight at `full` lets a site with this seed through.
    fn taken(&self, full: &str, seed: u64) -> (r: bool)
        requires
            self.wf(),
        ensures
            r == site_taken(self.rules(), full@, seed),
    {
        match self.weights.for_path(full) {
            Weight::Always => true,
            Weight::Sometimes(p) => draw(seed, 0) % (CERTAIN as u64) < p as u64,
        }
    }

    /// Whether the optional node `name` is kept at `path`: always when its
    /// weight says so, else by the first word of the site's seed (the seed is
    /// memoized under `(name, "")`).
    pub fn use_optional(&mut self, path: &str, name: &str) -> (r: bool)
        requires
            old(self).wf(),
        ensures
            final(self).wf(),
            r == kept(old(self).rules(), path@, name@, seed_for(old(self).memo(), old(self).origin(), name@, Seq::empty())),
            final(self).memo() == memo_after(old(self).memo(), old(self).origin(), name@, Seq::empty()),
            final(self).origin() == old(self).origin(),
            final(self).registry() == old(self).registry(),
            final(self).rules() == old(self).rules(),
    {
        let empty = String::new();
        assert(empty@ =~= Seq::<char>::empty());
        let seed = self.seed(name, empty.as_str());
        let option_path = join(path, "option");
        let full = join(option_path.as_str(), name);
        self.taken(full.as_str(), seed)
    }

    /// Chooses the template for a slot asking for `name` with selector
    /// `variant` at `path`, with the child's path; `None` leaves the slot empty.
    pub fn choose_template(&mut self, path: &str, name: &str, variant: &str) -> (r: Option<(&'a Template, String)>)
        requires
            old(self).wf(),
        ensures
            final(self).wf(),
            final(self).memo() == memo_after(old(self).memo(), old(self).origin(), front_name(name@), variant@),
            final(self).origin() == old(self).origin(),
            final(self).registry() == old(self).registry(),
            final(self).rules() == old(self).rules(),
            match chosen(
                old(self).registry(),
                old(self).rules(),
                path@,
                name@,
                seed_for(old(self).memo(), old(self).origin(), front_name(name@), variant@),
            ) {
                Some((fi, vi, p)) => r matches Some(c) && *c.0 == old(self).registry().features@[fi as int].templates@[vi as int] && c.1@ == p,
                None => r is None,
            },
    {
        let reg: &'a Registry = self.registry;
        match self.choose_variant(path, name, variant) {
            None => None,
            Some((fi, vi, child)) => Some((&reg.features[fi].templates[vi], child)),
        }
    }

    /// As `choose_template`, naming the choice by feature and variant index.
    pub fn choose_variant(&mut self, path: &str, name: &str, variant: &str) -> (r: Option<(usize, usize, String)>)
        requires
            old(self).wf(),
        ensures
            final(self).wf(),
            final(self).memo() == memo_after(old(self).memo(), old(self).origin(), front_name(name@), variant@),
            final(self).origin() == old(self).origin(),
            final(self).registry() == old(self).registry(),
            final(self).rules() == old(self).rules(),
            match chosen(
                old(self).registry(),
                old(self).rules(),
                path@,
                name@,
                seed_for(old(self).memo(), old(self).origin(), front_name(name@), variant@),
            ) {
                Some((fi, vi, p)) => r matches Some(c) && c.0 == fi && c.1 == vi && c.2@ == p
                    && fi < old(self).registry().features@.len()
                    && vi < old(self).registry().features@[fi as int].templates@.len(),
                None => r is None,
            },
    {
        proof {
            reveal_strlit("_back");
        }
        let reg: &'a Registry = self.registry;
        let is_back = ends_with_text(name, "_back");
        let n = name.unicode_len();
        let base = if is_back { slice_text(name, 0, n - 5) } else { String::from_str(name) };
        assert(base@ == front_name(name@));
        let seed = self.seed(base.as_str(), variant);
        let full = join(path, base.as_str());
        if !self.taken(full.as_str(), seed) {
            return None;
        }
        let fi = match find_feature(reg, base.as_str()) {
            None => return None,
            Some(fi) => fi,
        };
        let fs = &reg.features[fi];
        let mut ws: Vec<Weight> = Vec::new();
        let mut j: usize = 0;
        let ghost vnames = reg.variant_names_of(fi as int);
        while j < fs.variant_names.len()
            invariant
                self.wf(),
                reg == self.registry,
                fs == reg.features@[fi as int],
                vnames == reg.variant_names_of(fi as int),
                j <= fs.variant_names@.len(),
                ws@ == variant_weights(self.rules(), full@, vnames).take(j as int),
                forall|k: int| 0 <= k < ws@.len() ==> share(#[trigger] ws@[k]) <= CERTAIN,
            decreases fs.variant_names@.len() - j,
        {
            let vpath = join(full.as_str(), fs.variant_names[j].as_str());
            let w = self.weights.for_path(vpath.as_str());
            ws.push(w);
            assert(ws@ =~= variant_weights(self.rules(), full@, vnames).take(j + 1));
            j = j + 1;
        }
        assert(ws@ =~= variant_weights(self.rules(), full@, vnames));
        let vi = match pick_variant(&ws, draw(seed, 1)) {
            None => return None,
            Some(vi) => vi,
        };
        let vname = fs.variant_names[vi].as_str();
        assert(vname@ == vnames[vi as int]);
        if is_back {
            let bi = match find_feature(reg, name) {
                None => return None,
                Some(bi) => bi,
            };
            let bs = &reg.features[bi];
            match position_of(&bs.variant_names, vname) {
                None => None,
                Some(bj) => {
                    let back_path = join(path, name);
                    let child = join(back_path.as_str(), vname);
                    Some((bi, bj, child))
                },
            }
        } else {
            let child = join(full.as_str(), vname);
            Some((fi, vi, child))
        }
    }
}

} // verus!
