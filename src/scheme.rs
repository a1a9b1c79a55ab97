use vstd::prelude::*;
use vstd::string::*;
use crate::context::{draw, first_match, lemma_first_match_found, lemma_first_match_prefix, stream_word};
use crate::error::LoadError;
use crate::text::{join, joined, same_text};

verus! {

/// A constraint that a variant puts on another section: that section must
/// take one of the allowed variants.
pub struct SubChoice {
    pub section: String,
    pub allowed: Vec<String>,
}

/// One variant of a palette section. Its colour function is sampled by the
/// caller; here only its name and constraints matter.
pub struct VariantSpec {
    pub name: String,
    pub sub_choices: Vec<SubChoice>,
}

/// The variants that a section offers to one palette type.
pub struct PaletteKind {
    pub name: String,
    pub variants: Vec<VariantSpec>,
}

/// One section of a palette file, such as `skin` or `hair`.
pub struct Section {
    pub name: String,
    pub kinds: Vec<PaletteKind>,
}

pub open spec fn section_names(ss: Seq<Section>) -> Seq<Seq<char>> {
    ss.map_values(|s: Section| s.name@)
}

pub open spec fn kind_names(s: Section) -> Seq<Seq<char>> {
    s.kinds@.map_values(|k: PaletteKind| k.name@)
}

pub open spec fn variant_names(k: PaletteKind) -> Seq<Seq<char>> {
    k.variants@.map_values(|v: VariantSpec| v.name@)
}

/// The kind a section offers to palette type `t`: its own entry, else `default`.
pub open spec fn kind_of(s: Section, t: Seq<char>) -> Option<nat> {
    match first_match(kind_names(s), t) {
        Some(i) => Some(i),
        None => first_match(kind_names(s), "default"@),
    }
}

/// A sub-choice names an existing section whose kind for `t` has every allowed variant.
pub open spec fn choice_ok(ss: Seq<Section>, t: Seq<char>, c: SubChoice) -> bool {
    match first_match(section_names(ss), c.section@) {
        None => false,
        Some(k) => match kind_of(ss[k as int], t) {
            None => false,
            Some(j) => forall|a: int| 0 <= a < c.allowed@.len() ==> (#[trigger] first_match(
                variant_names(ss[k as int].kinds@[j as int]),
                c.allowed@[a]@,
            )) is Some,
        },
    }
}

pub open spec fn variant_ok(ss: Seq<Section>, t: Seq<char>, v: VariantSpec) -> bool {
    forall|c: int| 0 <= c < v.sub_choices@.len() ==> choice_ok(ss, t, #[trigger] v.sub_choices@[c])
}

pub open spec fn section_ok(ss: Seq<Section>, t: Seq<char>, s: Section) -> bool {
    match kind_of(s, t) {
        None => false,
        Some(j) => forall|v: int| 0 <= v < s.kinds@[j as int].variants@.len() ==> variant_ok(
            ss,
            t,
            #[trigger] s.kinds@[j as int].variants@[v],
        ),
    }
}

/// Every section has a kind for `t`, and every sub-choice of those kinds
/// refers to sections and variants that exist.
pub open spec fn palette_ok(ss: Seq<Section>, t: Seq<char>) -> bool {
    forall|s: int| 0 <= s < ss.len() ==> section_ok(ss, t, #[trigger] ss[s])
}

pub open spec fn kind_nonempty(k: PaletteKind) -> bool {
    &&& k.variants@.len() > 0
    &&& forall|v: int| 0 <= v < k.variants@.len() ==> forall|c: int|
        0 <= c < (#[trigger] k.variants@[v]).sub_choices@.len() ==> (#[trigger] k.variants@[v].sub_choices@[c]).allowed@.len() > 0
}

/// Sampling never meets an empty set: each section's kind offers a
/// variant and every sub-choice allows one.
pub open spec fn palette_nonempty(ss: Seq<Section>, t: Seq<char>) -> bool {
    forall|s: int| 0 <= s < ss.len() ==> (kind_of(#[trigger] ss[s], t) matches Some(j) ==> kind_nonempty(
        ss[s].kinds@[j as int],
    ))
}

/// The kind a section offers to palette type `t`.
pub fn find_kind(s: &Section, t: &str) -> (r: Option<usize>)
    ensures
        kind_of(*s, t@) == (match r {
            Some(k) => Some(k as nat),
            None => None::<nat>,
        }),
        r matches Some(k) ==> k < s.kinds@.len(),
{
    let ghost names = kind_names(*s);
    match find_name_in_kinds(&s.kinds, t) {
        Some(i) => Some(i),
        None => find_name_in_kinds(&s.kinds, "default"),
    }
}

fn find_name_in_kinds(kinds: &Vec<PaletteKind>, x: &str) -> (r: Option<usize>)
    ensures
        first_match(kinds@.map_values(|k: PaletteKind| k.name@), x@) == (match r {
            Some(k) => Some(k as nat),
            None => None::<nat>,
        }),
        r matches Some(k) ==> k < kinds@.len(),
{
    let ghost ks = kinds@.map_values(|k: PaletteKind| k.name@);
    let mut i: usize = 0;
    assert(ks.take(0) =~= Seq::<Seq<char>>::empty());
    while i < kinds.len()
        invariant
            i <= kinds@.len(),
            ks == kinds@.map_values(|k: PaletteKind| k.name@),
            first_match(ks.take(i as int), x@) is None,
        decreases kinds@.len() - i,
    {
        assert(ks.take(i + 1).drop_last() =~= ks.take(i as int));
        assert(ks[i as int] == kinds@[i as int].name@);
        if same_text(kinds[i].name.as_str(), x) {
            proof {
                lemma_first_match_prefix(ks, i + 1, x@);
            }
            return Some(i);
        }
        i = i + 1;
    }
    assert(ks.take(i as int) =~= ks);
    None
}

fn find_section(ss: &Vec<Section>, x: &str) -> (r: Option<usize>)
    ensures
        first_match(section_names(ss@), x@) == (match r {
            Some(k) => Some(k as nat),
            None => None::<nat>,
        }),
        r matches Some(k) ==> k < ss@.len(),
{
    let ghost ks = section_names(ss@);
    let mut i: usize = 0;
    assert(ks.take(0) =~= Seq::<Seq<char>>::empty());
    while i < ss.len()
        invariant
            i <= ss@.len(),
            ks == section_names(ss@),
            first_match(ks.take(i as int), x@) is None,
        decreases ss@.len() - i,
    {
        assert(ks.take(i + 1).drop_last() =~= ks.take(i as int));
        assert(ks[i as int] == ss@[i as int].name@);
        if same_text(ss[i].name.as_str(), x) {
            proof {
                lemma_first_match_prefix(ks, i + 1, x@);
            }
            return Some(i);
        }
        i = i + 1;
    }
    assert(ks.take(i as int) =~= ks);
    None
}

fn find_variant(k: &PaletteKind, x: &str) -> (r: Option<usize>)
    ensures
        first_match(variant_names(*k), x@) == (match r {
            Some(i) => Some(i as nat),
            None => None::<nat>,
        }),
        r matches Some(i) ==> i < k.variants@.len(),
{
    let ghost ks = variant_names(*k);
    let mut i: usize = 0;
    assert(ks.take(0) =~= Seq::<Seq<char>>::empty());
    while i < k.variants.len()
        invariant
            i <= k.variants@.len(),
            ks == variant_names(*k),
            first_match(ks.take(i as int), x@) is None,
        decreases k.variants@.len() - i,
    {
        assert(ks.take(i + 1).drop_last() =~= ks.take(i as int));
        assert(ks[i as int] == k.variants@[i as int].name@);
        if same_text(k.variants[i].name.as_str(), x) {
            proof {
                lemma_first_match_prefix(ks, i + 1, x@);
            }
            return Some(i);
        }
        i = i + 1;
    }
    assert(ks.take(i as int) =~= ks);
    None
}

fn check_choice(ss: &Vec<Section>, t: &str, c: &SubChoice) -> (r: bool)
    ensures
        r == choice_ok(ss@, t@, *c),
{
    let k = match find_section(ss, c.section.as_str()) {
        None => return false,
        Some(k) => k,
    };
    let j = match find_kind(&ss[k], t) {
        None => return false,
        Some(j) => j,
    };
    let kind = &ss[k].kinds[j];
    let mut a: usize = 0;
    while a < c.allowed.len()
        invariant
            a <= c.allowed@.len(),
            k < ss@.len(),
            j < ss@[k as int].kinds@.len(),
            kind == ss@[k as int].kinds@[j as int],
            choice_ok(ss@, t@, *c) == (forall|b: int| 0 <= b < c.allowed@.len() ==> (#[trigger] first_match(variant_names(*kind), c.allowed@[b]@)) is Some),
            forall|b: int| 0 <= b < a ==> (#[trigger] first_match(variant_names(*kind), c.allowed@[b]@)) is Some,
        decreases c.allowed@.len() - a,
    {
        if find_variant(kind, c.allowed[a].as_str()).is_none() {
            assert(first_match(variant_names(*kind), c.allowed@[a as int]@) is None);
            return false;
        }
        a = a + 1;
    }
    true
}

fn check_variant(ss: &Vec<Section>, t: &str, v: &VariantSpec) -> (r: bool)
    ensures
        r == variant_ok(ss@, t@, *v),
{
    let mut c: usize = 0;
    while c < v.sub_choices.len()
        invariant
            c <= v.sub_choices@.len(),
            forall|d: int| 0 <= d < c ==> choice_ok(ss@, t@, #[trigger] v.sub_choices@[d]),
        decreases v.sub_choices@.len() - c,
    {
        if !check_choice(ss, t, &v.sub_choices[c]) {
            return false;
        }
        c = c + 1;
    }
    true
}

fn check_section(ss: &Vec<Section>, t: &str, s: &Section) -> (r: bool)
    ensures
        r == section_ok(ss@, t@, *s),
{
    let j = match find_kind(s, t) {
        None => return false,
        Some(j) => j,
    };
    let kind = &s.kinds[j];
    let mut v: usize = 0;
    while v < kind.variants.len()
        invariant
            v <= kind.variants@.len(),
            j < s.kinds@.len(),
            kind == s.kinds@[j as int],
            kind_of(*s, t@) == Some(j as nat),
            forall|w: int| 0 <= w < v ==> variant_ok(ss@, t@, #[trigger] kind.variants@[w]),
        decreases kind.variants@.len() - v,
    {
        if !check_variant(ss, t, &kind.variants[v]) {
            assert(!variant_ok(ss@, t@, s.kinds@[j as int].variants@[v as int]));
            assert(!section_ok(ss@, t@, *s)) by {
                let jj = kind_of(*s, t@)->Some_0;
                assert(jj == j);
                assert(!variant_ok(ss@, t@, s.kinds@[jj as int].variants@[v as int]));
            }
            return false;
        }
        v = v + 1;
    }
    true
}

fn check_nonempty(k: &PaletteKind) -> (r: bool)
    ensures
        r == kind_nonempty(*k),
{
    if k.variants.len() == 0 {
        return false;
    }
    let mut v: usize = 0;
    while v < k.variants.len()
        invariant
            v <= k.variants@.len(),
            forall|w: int| 0 <= w < v ==> forall|c: int|
                0 <= c < (#[trigger] k.variants@[w]).sub_choices@.len() ==> (#[trigger] k.variants@[w].sub_choices@[c]).allowed@.len() > 0,
        decreases k.variants@.len() - v,
    {
        let spec_v = &k.variants[v];
        let mut c: usize = 0;
        while c < spec_v.sub_choices.len()
            invariant
                c <= spec_v.sub_choices@.len(),
                v < k.variants@.len(),
                *spec_v == k.variants@[v as int],
                forall|d: int| 0 <= d < c ==> (#[trigger] spec_v.sub_choices@[d]).allowed@.len() > 0,
            decreases spec_v.sub_choices@.len() - c,
        {
            if spec_v.sub_choices[c].allowed.len() == 0 {
                assert(k.variants@[v as int].sub_choices@[c as int].allowed@.len() == 0);
                return false;
            }
            c = c + 1;
        }
        v = v + 1;
    }
    true
}

/// Checks a palette for palette type `t`: `InvalidPalette` when a section
/// lacks a kind for `t` or a sub-choice refers to a missing section or
/// variant; else `EmptyConstraint` when a kind offers no variant or a
/// sub-choice allows none.
pub fn check_palette(ss: &Vec<Section>, t: &str) -> (r: Result<(), LoadError>)
    ensures
        !palette_ok(ss@, t@) ==> r == Err::<(), LoadError>(LoadError::InvalidPalette),
        palette_ok(ss@, t@) && !palette_nonempty(ss@, t@) ==> r == Err::<(), LoadError>(LoadError::EmptyConstraint),
        palette_ok(ss@, t@) && palette_nonempty(ss@, t@) ==> r is Ok,
{
    let mut s: usize = 0;
    while s < ss.len()
        invariant
            s <= ss@.len(),
            forall|q: int| 0 <= q < s ==> section_ok(ss@, t@, #[trigger] ss@[q]),
        decreases ss@.len() - s,
    {
        if !check_section(ss, t, &ss[s]) {
            return Err(LoadError::InvalidPalette);
        }
        s = s + 1;
    }
    let mut s: usize = 0;
    while s < ss.len()
        invariant
            s <= ss@.len(),
            palette_ok(ss@, t@),
            forall|q: int| 0 <= q < s ==> (kind_of(#[trigger] ss@[q], t@) matches Some(j) ==> kind_nonempty(
                ss@[q].kinds@[j as int],
            )),
        decreases ss@.len() - s,
    {
        match find_kind(&ss[s], t) {
            None => {},
            Some(j) => {
                if !check_nonempty(&ss[s].kinds[j]) {
                    return Err(LoadError::EmptyConstraint);
                }
            },
        }
        s = s + 1;
    }
    Ok(())
}

/// The section's kind for `t` offers variant index `v`.
pub open spec fn variant_in_range(s: Section, t: Seq<char>, v: usize) -> bool {
    kind_of(s, t) matches Some(j) && j < s.kinds@.len() && v < s.kinds@[j as int].variants@.len()
}

/// Every finished section holds a variant its kind offers.
pub open spec fn finished_valid(ss: Seq<Section>, t: Seq<char>, state: Seq<u8>, chosen: Seq<usize>) -> bool {
    forall|q: int| 0 <= q < ss.len() && state[q] == 2 && (kind_of(ss[q], t) matches Some(j) && j < ss[q].kinds@.len()
        && ss[q].kinds@[j as int].variants@.len() > 0) ==> variant_in_range(#[trigger] ss[q], t, chosen[q])
}

/// Sampling state: words drawn so far, per-section marks (0 unvisited,
/// 1 in progress, 2 chosen), and the chosen variant indices.
pub type PickState = (u64, Seq<u8>, Seq<usize>);

pub open spec fn allowed_view(allowed: Option<&Vec<String>>) -> Option<Seq<Seq<char>>> {
    match allowed {
        Some(a) => Some(a@.map_values(|x: String| x@)),
        None => None,
    }
}

/// The variant index that `word` picks in a kind: uniformly among all its
/// variants, or among the allowed names (an unknown name falls back to the
/// first variant).
pub open spec fn pick_from(k: PaletteKind, allowed: Option<Seq<Seq<char>>>, word: u64) -> usize {
    let n = k.variants@.len();
    match allowed {
        None => (word % (n as u64)) as usize,
        Some(a) => if a.len() == 0 {
            0
        } else {
            match first_match(variant_names(k), a[(word % (a.len() as u64)) as int]) {
                Some(v) => v as usize,
                None => 0,
            }
        },
    }
}

/// Visiting section `s`: unless it is already marked, draw a word, pick its
/// variant, settle the sections that variant constrains, then record it.
pub open spec fn visit_spec(
    ss: Seq<Section>,
    t: Seq<char>,
    s: int,
    allowed: Option<Seq<Seq<char>>>,
    seed: u64,
    st: PickState,
    depth: nat,
) -> PickState
    decreases depth, 1nat, 0nat,
{
    if st.1[s] != 0 {
        st
    } else {
        let word = stream_word(seed, st.0);
        let drawn = st.0.wrapping_add(1);
        let marks = st.1.update(s, 1);
        match kind_of(ss[s], t) {
            None => (drawn, marks.update(s, 2), st.2),
            Some(j) => {
                let k = ss[s].kinds@[j as int];
                if k.variants@.len() == 0 {
                    (drawn, marks.update(s, 2), st.2)
                } else {
                    let v = pick_from(k, allowed, word);
                    let after = if depth > 0 {
                        let subs = k.variants@[v as int].sub_choices@;
                        subs_spec(ss, t, subs, seed, (drawn, marks, st.2), depth, subs.len())
                    } else {
                        (drawn, marks, st.2)
                    };
                    (after.0, after.1.update(s, 2), after.2.update(s, v))
                }
            },
        }
    }
}

/// Settling the first `count` sub-choices, in order.
pub open spec fn subs_spec(
    ss: Seq<Section>,
    t: Seq<char>,
    subs: Seq<SubChoice>,
    seed: u64,
    st: PickState,
    depth: nat,
    count: nat,
) -> PickState
    decreases depth, 0nat, count,
{
    if count == 0 || depth == 0 {
        st
    } else {
        let st0 = subs_spec(ss, t, subs, seed, st, depth, (count - 1) as nat);
        let c = subs[count - 1];
        match first_match(section_names(ss), c.section@) {
            None => st0,
            Some(k) => visit_spec(
                ss,
                t,
                k as int,
                Some(c.allowed@.map_values(|x: String| x@)),
                seed,
                st0,
                (depth - 1) as nat,
            ),
        }
    }
}

/// Visiting the first `count` sections in declared order, unconstrained.
pub open spec fn sections_spec(ss: Seq<Section>, t: Seq<char>, seed: u64, count: nat) -> PickState
    decreases count,
{
    if count == 0 {
        (0, Seq::new(ss.len(), |i: int| 0u8), Seq::new(ss.len(), |i: int| 0usize))
    } else {
        visit_spec(ss, t, count - 1, None, seed, sections_spec(ss, t, seed, (count - 1) as nat), ss.len())
    }
}

/// Chooses the variant of section `s` (unless it is already chosen or being
/// chosen), from `allowed` when a sub-choice constrains it, then the sections
/// that its variant constrains; `state` marks sections unvisited (0), in
/// progress (1) or chosen (2).
fn visit(
    ss: &Vec<Section>,
    t: &str,
    s: usize,
    allowed: Option<&Vec<String>>,
    seed: u64,
    drawn: &mut u64,
    state: &mut Vec<u8>,
    chosen: &mut Vec<usize>,
    depth: usize,
)
    requires
        s < ss@.len(),
        old(state)@.len() == ss@.len(),
        old(chosen)@.len() == ss@.len(),
        finished_valid(ss@, t@, old(state)@, old(chosen)@),
        forall|q: int| 0 <= q < ss@.len() ==> old(state)@[q] <= 2,
    ensures
        (*final(drawn), final(state)@, final(chosen)@) == visit_spec(
            ss@,
            t@,
            s as int,
            allowed_view(allowed),
            seed,
            (*old(drawn), old(state)@, old(chosen)@),
            depth as nat,
        ),
        forall|q: int| 0 <= q < ss@.len() ==> final(state)@[q] <= 2,
        final(state)@.len() == ss@.len(),
        final(chosen)@.len() == ss@.len(),
        finished_valid(ss@, t@, final(state)@, final(chosen)@),
        forall|q: int| 0 <= q < ss@.len() && old(state)@[q] != 0 ==> final(state)@[q] == old(state)@[q],
        forall|q: int| 0 <= q < ss@.len() && final(state)@[q] == 1 ==> old(state)@[q] == 1,
        old(state)@[s as int] == 0 ==> final(state)@[s as int] == 2,
    decreases depth,
{
    if state[s] != 0 {
        return;
    }
    let ghost st0: PickState = (*drawn, state@, chosen@);
    state.set(s, 1);
    let word = draw(seed, *drawn);
    *drawn = drawn.wrapping_add(1);
    let j = match find_kind(&ss[s], t) {
        None => {
            state.set(s, 2);
            return;
        },
        Some(j) => j,
    };
    let kind = &ss[s].kinds[j];
    let n = kind.variants.len();
    if n == 0 {
        state.set(s, 2);
        return;
    }
    let v: usize = match allowed {
        None => (word % (n as u64)) as usize,
        Some(a) => {
            if a.len() == 0 {
                0
            } else {
                let pick = (word % (a.len() as u64)) as usize;
                assert(a@.map_values(|x: String| x@)[pick as int] == a@[pick as int]@);
                match find_variant(kind, a[pick].as_str()) {
                    Some(v) => v,
                    None => 0,
                }
            }
        },
    };
    assert(v == pick_from(*kind, allowed_view(allowed), word));
    if depth > 0 {
        let subs = &kind.variants[v].sub_choices;
        let ghost start: PickState = (*drawn, state@, chosen@);
        let mut c: usize = 0;
        while c < subs.len()
            invariant
                s < ss@.len(),
                state@.len() == ss@.len(),
                chosen@.len() == ss@.len(),
                state@[s as int] == 1,
                depth > 0,
                forall|q: int| 0 <= q < ss@.len() ==> state@[q] <= 2,
                finished_valid(ss@, t@, state@, chosen@),
                forall|q: int| 0 <= q < ss@.len() && old(state)@[q] != 0 ==> state@[q] == old(state)@[q],
                forall|q: int| 0 <= q < ss@.len() && state@[q] == 1 ==> (old(state)@[q] == 1 || q == s),
                c <= subs@.len(),
                (*drawn, state@, chosen@) == subs_spec(ss@, t@, subs@, seed, start, depth as nat, c as nat),
            decreases subs@.len() - c,
        {
            match find_section(ss, subs[c].section.as_str()) {
                None => {},
                Some(k) => {
                    visit(ss, t, k, Some(&subs[c].allowed), seed, drawn, state, chosen, depth - 1);
                },
            }
            c = c + 1;
        }
    }
    chosen.set(s, v);
    state.set(s, 2);
    assert(variant_in_range(ss@[s as int], t@, v));
}

/// Chooses one variant for every section, in declared order: uniformly
/// among the kind's variants, or among the allowed ones when an earlier
/// choice constrained the section; the variant's own sub-choices are settled
/// before it is recorded. Draws come from the stream that `seed` starts.
pub fn choose_variants(ss: &Vec<Section>, t: &str, seed: u64) -> (r: Vec<usize>)
    requires
        palette_ok(ss@, t@),
        palette_nonempty(ss@, t@),
    ensures
        r@ == sections_spec(ss@, t@, seed, ss@.len()).2,
        r@.len() == ss@.len(),
        forall|q: int| 0 <= q < ss@.len() ==> variant_in_range(#[trigger] ss@[q], t@, r@[q]),
{
    let n = ss.len();
    let mut state: Vec<u8> = Vec::new();
    let mut chosen: Vec<usize> = Vec::new();
    let mut i: usize = 0;
    while i < n
        invariant
            n == ss@.len(),
            i <= n,
            state@.len() == i,
            chosen@.len() == i,
            forall|q: int| 0 <= q < i ==> state@[q] == 0,
            forall|q: int| 0 <= q < i ==> chosen@[q] == 0,
        decreases n - i,
    {
        state.push(0);
        chosen.push(0);
        i = i + 1;
    }
    let mut drawn: u64 = 0;
    let mut s: usize = 0;
    assert(state@ =~= sections_spec(ss@, t@, seed, 0).1);
    assert(chosen@ =~= sections_spec(ss@, t@, seed, 0).2);
    while s < n
        invariant
            n == ss@.len(),
            s <= n,
            state@.len() == n,
            chosen@.len() == n,
            finished_valid(ss@, t@, state@, chosen@),
            forall|q: int| 0 <= q < n ==> state@[q] != 1,
            forall|q: int| 0 <= q < n ==> state@[q] <= 2,
            forall|q: int| 0 <= q < s ==> state@[q] == 2,
            (drawn, state@, chosen@) == sections_spec(ss@, t@, seed, s as nat),
        decreases n - s,
    {
        let ghost before = state@;
        assert(before[s as int] != 1);
        visit(ss, t, s, None, seed, &mut drawn, &mut state, &mut chosen, n);
        assert forall|q: int| 0 <= q < n implies state@[q] != 1 by {
            if state@[q] == 1 {
                assert(before[q] == 1);
            }
        }
        assert forall|q: int| 0 <= q < s + 1 implies state@[q] == 2 by {
            if q < s {
                assert(before[q] == 2);
            } else {
                assert(q == s);
                if before[q] == 0 {
                    assert(state@[s as int] == 2);
                } else {
                    assert(before[q] == 2);
                    assert(state@[q] == before[q]);
                }
            }
        }
        s = s + 1;
    }
    assert forall|q: int| 0 <= q < ss@.len() implies variant_in_range(#[trigger] ss@[q], t@, chosen@[q]) by {
        lemma_kind_of_bound(ss@[q], t@);
        assert(section_ok(ss@, t@, ss@[q]));
        assert(kind_of(ss@[q], t@) matches Some(j) ==> kind_nonempty(ss@[q].kinds@[j as int]));
        assert(state@[q] == 2);
    }
    chosen
}

proof fn lemma_kind_of_bound(s: Section, t: Seq<char>)
    ensures
        kind_of(s, t) matches Some(j) ==> j < s.kinds@.len(),
{
    lemma_first_match_found(kind_names(s), t);
    lemma_first_match_found(kind_names(s), "default"@);
}

/// `t` followed by `:section:variant` for each chosen pair, in order.
pub open spec fn palette_path_of(t: Seq<char>, pairs: Seq<(Seq<char>, Seq<char>)>) -> Seq<char>
    decreases pairs.len(),
{
    if pairs.len() == 0 {
        t
    } else {
        joined(joined(palette_path_of(t, pairs.drop_last()), pairs.last().0), pairs.last().1)
    }
}

/// The names of the chosen variants, section by section.
pub open spec fn chosen_pairs(ss: Seq<Section>, t: Seq<char>, chosen: Seq<usize>) -> Seq<(Seq<char>, Seq<char>)> {
    Seq::new(ss.len(), |q: int| (ss[q].name@, ss[q].kinds@[kind_of(ss[q], t)->Some_0 as int].variants@[chosen[q] as int].name@))
}

/// The canonical palette path `t:section:variant:...`, in section order.
pub fn palette_path(ss: &Vec<Section>, t: &str, chosen: &Vec<usize>) -> (r: String)
    requires
        chosen@.len() == ss@.len(),
        forall|q: int| 0 <= q < ss@.len() ==> variant_in_range(#[trigger] ss@[q], t@, chosen@[q]),
    ensures
        r@ == palette_path_of(t@, chosen_pairs(ss@, t@, chosen@)),
{
    let ghost pairs = chosen_pairs(ss@, t@, chosen@);
    let mut out = String::from_str(t);
    let mut q: usize = 0;
    assert(pairs.take(0) =~= Seq::<(Seq<char>, Seq<char>)>::empty());
    while q < ss.len()
        invariant
            q <= ss@.len(),
            chosen@.len() == ss@.len(),
            pairs == chosen_pairs(ss@, t@, chosen@),
            forall|q: int| 0 <= q < ss@.len() ==> variant_in_range(#[trigger] ss@[q], t@, chosen@[q]),
            out@ == palette_path_of(t@, pairs.take(q as int)),
        decreases ss@.len() - q,
    {
        assert(variant_in_range(ss@[q as int], t@, chosen@[q as int]));
        let j = match find_kind(&ss[q], t) {
            Some(j) => j,
            None => 0,
        };
        let name = ss[q].kinds[j].variants[chosen[q]].name.as_str();
        let with_section = join(out.as_str(), ss[q].name.as_str());
        out = join(with_section.as_str(), name);
        assert(pairs.take(q + 1).drop_last() =~= pairs.take(q as int));
        q = q + 1;
    }
    assert(pairs.take(q as int) =~= pairs);
    out
}

} // verus!
