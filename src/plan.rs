use vstd::prelude::*;
use crate::context::{
    chosen, extends, front_name, kept, memo_after, seed_for, seed_keys, lemma_first_match_prefix,
    lemma_first_match_found, GenerationContext, Registry, SeedView,
};
use crate::template::{GuideKind, SlotView, Template};
use crate::weights::Weight;

verus! {

/// What became of one slot of a template.
pub enum SlotPlan {
    /// Nothing was chosen: the slot's marker is removed.
    Empty,
    /// A child template fills the slot.
    Filled(Box<Placement>),
}

/// A child template placed into a slot.
pub struct Placement {
    /// Index of the child's feature in the registry.
    pub feature: usize,
    /// Index of the child's variant within that feature.
    pub variant: usize,
    /// The child's selector path.
    pub path: String,
    /// Circle-guided children are aligned after the whole face is built.
    pub deferred: bool,
    /// What was decided inside the child.
    pub plan: Plan,
}

/// The decisions taken while expanding one template: which optional nodes
/// are dropped (by node index) and what fills each slot, in slot order.
pub struct Plan {
    pub dropped: Vec<usize>,
    pub slots: Vec<SlotPlan>,
}

/// Once the seed of a `(feature, variant selector)` key has been asked for,
/// every later ask for the same key gets the same seed, however the memo grew
/// meanwhile; so two slots of one template that share feature and variant
/// selector receive the same choice.
pub proof fn lemma_sibling_symmetry(
    reg: Registry,
    rules: Seq<(Seq<char>, Weight)>,
    origin: u64,
    m: Seq<SeedView>,
    later: Seq<SeedView>,
    path: Seq<char>,
    name: Seq<char>,
    variant: Seq<char>,
)
    requires
        extends(memo_after(m, origin, front_name(name), variant), later),
    ensures
        seed_for(later, origin, front_name(name), variant) == seed_for(m, origin, front_name(name), variant),
        chosen(reg, rules, path, name, seed_for(later, origin, front_name(name), variant)) == chosen(
            reg,
            rules,
            path,
            name,
            seed_for(m, origin, front_name(name), variant),
        ),
{
    let key = (front_name(name), variant);
    let m1 = memo_after(m, origin, front_name(name), variant);
    let k1 = seed_keys(m1);
    let kl = seed_keys(later);
    lemma_first_match_found(seed_keys(m), key);
    match first_match_of(seed_keys(m), key) {
        Some(i) => {},
        None => {
            assert(k1.take(m.len() as int) =~= seed_keys(m));
            assert(k1[m.len() as int] == key);
            assert(k1.take(m.len() + 1 as int) =~= k1);
        },
    }
    assert(kl.take(m1.len() as int) =~= k1);
    assert(crate::context::first_match(k1, key) is Some);
    lemma_first_match_prefix(kl, m1.len() as int, key);
    let i = crate::context::first_match(k1, key)->Some_0;
    lemma_first_match_found(k1, key);
    assert(later[i as int] == m1[i as int]);
}

pub open spec fn first_match_of(s: Seq<(Seq<char>, Seq<char>)>, x: (Seq<char>, Seq<char>)) -> Option<nat> {
    crate::context::first_match(s, x)
}

/// The optional nodes dropped at `path`, in order, and the memo after
/// deciding them.
pub open spec fn options_after(
    rules: Seq<(Seq<char>, Weight)>,
    origin: u64,
    m: Seq<SeedView>,
    opts: Seq<(Seq<char>, nat)>,
    path: Seq<char>,
) -> (Seq<nat>, Seq<SeedView>)
    decreases opts.len(),
{
    if opts.len() == 0 {
        (Seq::empty(), m)
    } else {
        let (d, m1) = options_after(rules, origin, m, opts.drop_last(), path);
        let o = opts.last();
        let keep = kept(rules, path, o.0, seed_for(m1, origin, o.0, Seq::empty()));
        (if keep { d } else { d.push(o.1) }, memo_after(m1, origin, o.0, Seq::empty()))
    }
}

/// The template a choice names.
pub open spec fn template_at(reg: Registry, fi: nat, vi: nat) -> Template {
    reg.features@[fi as int].templates@[vi as int]
}

/// The memo after expanding `t` at `path` with `depth` levels left.
pub open spec fn plan_memo(
    reg: Registry,
    rules: Seq<(Seq<char>, Weight)>,
    origin: u64,
    m: Seq<SeedView>,
    t: Template,
    path: Seq<char>,
    depth: nat,
) -> Seq<SeedView>
    decreases depth, t.slot_views().len() + 1,
{
    let m1 = options_after(rules, origin, m, t.option_views(), path).1;
    slots_memo(reg, rules, origin, m1, t.slot_views(), path, depth)
}

/// The memo after filling `slots` in order.
pub open spec fn slots_memo(
    reg: Registry,
    rules: Seq<(Seq<char>, Weight)>,
    origin: u64,
    m: Seq<SeedView>,
    slots: Seq<SlotView>,
    path: Seq<char>,
    depth: nat,
) -> Seq<SeedView>
    decreases depth, slots.len(),
{
    if slots.len() == 0 {
        m
    } else {
        let m0 = slots_memo(reg, rules, origin, m, slots.drop_last(), path, depth);
        let s = slots.last();
        if depth == 0 {
            m0
        } else {
            let m1 = memo_after(m0, origin, front_name(s.0), s.1);
            match chosen(reg, rules, path, s.0, seed_for(m0, origin, front_name(s.0), s.1)) {
                None => m1,
                Some((fi, vi, p)) => if fi < reg.features@.len() && vi < reg.features@[fi as int].templates@.len() {
                    plan_memo(reg, rules, origin, m1, template_at(reg, fi, vi), p, (depth - 1) as nat)
                } else {
                    m1
                },
            }
        }
    }
}

/// What slot `s` holds when it is filled with memo `m` before it: empty at
/// depth zero or when nothing is chosen, else the chosen template, expanded
/// one level deeper.
pub open spec fn slot_plan_ok(
    sp: SlotPlan,
    reg: Registry,
    rules: Seq<(Seq<char>, Weight)>,
    origin: u64,
    m: Seq<SeedView>,
    s: SlotView,
    path: Seq<char>,
    depth: nat,
) -> bool
    decreases depth, 0nat,
{
    if depth == 0 {
        sp is Empty
    } else {
        match chosen(reg, rules, path, s.0, seed_for(m, origin, front_name(s.0), s.1)) {
            None => sp is Empty,
            Some((fi, vi, p)) => match sp {
                SlotPlan::Empty => false,
                SlotPlan::Filled(pl) => {
                    &&& pl.feature == fi
                    &&& pl.variant == vi
                    &&& pl.path@ == p
                    &&& fi < reg.features@.len()
                    &&& vi < reg.features@[fi as int].templates@.len()
                    &&& pl.deferred == (template_at(reg, fi, vi).spec_outer_guide() == Some(GuideKind::Circle))
                    &&& plan_ok(
                        pl.plan,
                        reg,
                        rules,
                        origin,
                        memo_after(m, origin, front_name(s.0), s.1),
                        template_at(reg, fi, vi),
                        p,
                        (depth - 1) as nat,
                    )
                },
            },
        }
    }
}

/// `p` is the expansion of `t` at `path` from memo `m` with `depth` levels
/// left: the optional nodes that `options_after` drops, then each slot as
/// `slot_plan_ok` says, each from the memo its predecessors left.
pub open spec fn plan_ok(
    p: Plan,
    reg: Registry,
    rules: Seq<(Seq<char>, Weight)>,
    origin: u64,
    m: Seq<SeedView>,
    t: Template,
    path: Seq<char>,
    depth: nat,
) -> bool
    decreases depth, 1nat,
{
    let (dropped, m1) = options_after(rules, origin, m, t.option_views(), path);
    &&& p.dropped@.map_values(|n: usize| n as nat) == dropped
    &&& p.slots@.len() == t.slot_views().len()
    &&& forall|k: int| 0 <= k < p.slots@.len() ==> slot_plan_ok(
        #[trigger] p.slots@[k],
        reg,
        rules,
        origin,
        slots_memo(reg, rules, origin, m1, t.slot_views().take(k), path, depth),
        t.slot_views()[k],
        path,
        depth,
    )
}

/// Two plans take the same decisions, to `depth` levels.
pub open spec fn plans_agree(a: Plan, b: Plan, depth: nat) -> bool
    decreases depth, 1nat,
{
    &&& a.dropped@.map_values(|n: usize| n as nat) == b.dropped@.map_values(|n: usize| n as nat)
    &&& a.slots@.len() == b.slots@.len()
    &&& forall|k: int| 0 <= k < a.slots@.len() ==> slots_agree(#[trigger] a.slots@[k], b.slots@[k], depth)
}

pub open spec fn slots_agree(a: SlotPlan, b: SlotPlan, depth: nat) -> bool
    decreases depth, 0nat,
{
    match (a, b) {
        (SlotPlan::Empty, SlotPlan::Empty) => true,
        (SlotPlan::Filled(x), SlotPlan::Filled(y)) => {
            &&& x.feature == y.feature
            &&& x.variant == y.variant
            &&& x.path@ == y.path@
            &&& x.deferred == y.deferred
            &&& depth > 0
            &&& plans_agree(x.plan, y.plan, (depth - 1) as nat)
        },
        _ => false,
    }
}

/// Expanding the same template at the same path from the same memo, with
/// the same templates, weights and stream, always takes the same decisions.
pub proof fn lemma_plan_determined(
    a: Plan,
    b: Plan,
    reg: Registry,
    rules: Seq<(Seq<char>, Weight)>,
    origin: u64,
    m: Seq<SeedView>,
    t: Template,
    path: Seq<char>,
    depth: nat,
)
    requires
        plan_ok(a, reg, rules, origin, m, t, path, depth),
        plan_ok(b, reg, rules, origin, m, t, path, depth),
    ensures
        plans_agree(a, b, depth),
    decreases depth, 1nat,
{
    let m1 = options_after(rules, origin, m, t.option_views(), path).1;
    assert forall|k: int| 0 <= k < a.slots@.len() implies slots_agree(#[trigger] a.slots@[k], b.slots@[k], depth) by {
        let mk = slots_memo(reg, rules, origin, m1, t.slot_views().take(k), path, depth);
        assert(slot_plan_ok(a.slots@[k], reg, rules, origin, mk, t.slot_views()[k], path, depth));
        assert(slot_plan_ok(b.slots@[k], reg, rules, origin, mk, t.slot_views()[k], path, depth));
        lemma_slot_determined(a.slots@[k], b.slots@[k], reg, rules, origin, mk, t.slot_views()[k], path, depth);
    }
}

proof fn lemma_slot_determined(
    a: SlotPlan,
    b: SlotPlan,
    reg: Registry,
    rules: Seq<(Seq<char>, Weight)>,
    origin: u64,
    m: Seq<SeedView>,
    s: SlotView,
    path: Seq<char>,
    depth: nat,
)
    requires
        slot_plan_ok(a, reg, rules, origin, m, s, path, depth),
        slot_plan_ok(b, reg, rules, origin, m, s, path, depth),
    ensures
        slots_agree(a, b, depth),
    decreases depth, 0nat,
{
    if depth > 0 {
        match chosen(reg, rules, path, s.0, seed_for(m, origin, front_name(s.0), s.1)) {
            None => {},
            Some((fi, vi, p)) => {
                match (a, b) {
                    (SlotPlan::Filled(x), SlotPlan::Filled(y)) => {
                        lemma_plan_determined(
                            x.plan,
                            y.plan,
                            reg,
                            rules,
                            origin,
                            memo_after(m, origin, front_name(s.0), s.1),
                            template_at(reg, fi, vi),
                            p,
                            (depth - 1) as nat,
                        );
                    },
                    _ => {},
                }
            },
        }
    }
}

/// Expands `template` at `path`: decides its optional nodes, then fills
/// each slot in order, recursing into each child with one less level of
/// nesting; at level zero slots stay empty (only a cycle among templates
/// nests deeper than there are features).
pub fn plan_template<'a>(
    ctx: &mut GenerationContext<'a>,
    template: &'a Template,
    path: &str,
    depth: usize,
) -> (r: Plan)
    requires
        old(ctx).wf(),
    ensures
        final(ctx).wf(),
        final(ctx).origin() == old(ctx).origin(),
        final(ctx).registry() == old(ctx).registry(),
        final(ctx).rules() == old(ctx).rules(),
        plan_ok(r, old(ctx).registry(), old(ctx).rules(), old(ctx).origin(), old(ctx).memo(), *template, path@, depth as nat),
        final(ctx).memo() == plan_memo(old(ctx).registry(), old(ctx).rules(), old(ctx).origin(), old(ctx).memo(), *template, path@, depth as nat),
    decreases depth,
{
    let mut dropped: Vec<usize> = Vec::new();
    let options = template.optional_nodes();
    let mut i: usize = 0;
    let ghost m0 = ctx.memo();
    let ghost reg0 = ctx.registry();
    let ghost rules0 = ctx.rules();
    let ghost origin0 = ctx.origin();
    let ghost opts = template.option_views();
    assert(opts.take(0) =~= Seq::<(Seq<char>, nat)>::empty());
    assert(dropped@.map_values(|n: usize| n as nat) =~= Seq::<nat>::empty());
    while i < options.len()
        invariant
            ctx.wf(),
            ctx.origin() == origin0,
            ctx.registry() == reg0,
            ctx.rules() == rules0,
            i <= options@.len(),
            opts == template.option_views(),
            options@.map_values(|o: crate::template::OptionalNode| (o.name@, o.node as nat)) == opts,
            (dropped@.map_values(|n: usize| n as nat), ctx.memo()) == options_after(rules0, origin0, m0, opts.take(i as int), path@),
        decreases options@.len() - i,
    {
        assert(opts.take(i + 1).drop_last() =~= opts.take(i as int));
        assert(opts[i as int] == (options@[i as int].name@, options@[i as int].node as nat));
        let keep = ctx.use_optional(path, options[i].name.as_str());
        if !keep {
            let ghost before = dropped@;
            dropped.push(options[i].node);
            assert(dropped@.map_values(|n: usize| n as nat) =~= before.map_values(|n: usize| n as nat).push(options@[i as int].node as nat));
        }
        i = i + 1;
    }
    assert(opts.take(i as int) =~= opts);
    let ghost m1 = ctx.memo();
    let slots = template.slots();
    let ghost sv = template.slot_views();
    let mut filled: Vec<SlotPlan> = Vec::new();
    let mut k: usize = 0;
    assert(sv.take(0) =~= Seq::<SlotView>::empty());
    while k < slots.len()
        invariant
            ctx.wf(),
            ctx.origin() == origin0,
            ctx.registry() == reg0,
            ctx.rules() == rules0,
            k <= slots@.len(),
            filled@.len() == k,
            sv == template.slot_views(),
            slots@.map_values(|s: crate::template::Slot| (s.feature@, s.variant@, s.node as nat)) == sv,
            ctx.memo() == slots_memo(reg0, rules0, origin0, m1, sv.take(k as int), path@, depth as nat),
            forall|j: int| 0 <= j < k ==> slot_plan_ok(
                #[trigger] filled@[j],
                reg0,
                rules0,
                origin0,
                slots_memo(reg0, rules0, origin0, m1, sv.take(j), path@, depth as nat),
                sv[j],
                path@,
                depth as nat,
            ),
        decreases slots@.len() - k,
    {
        let slot = &slots[k];
        assert(sv[k as int] == (slot.feature@, slot.variant@, slot.node as nat));
        assert(sv.take(k + 1).drop_last() =~= sv.take(k as int));
        let ghost before = ctx.memo();
        if depth == 0 {
            filled.push(SlotPlan::Empty);
        } else {
            let choice = ctx.choose_variant(path, slot.feature.as_str(), slot.variant.as_str());
            match choice {
                None => {
                    filled.push(SlotPlan::Empty);
                },
                Some((fi, vi, child_path)) => {
                    let reg: &'a Registry = ctx.registry_ref();
                    let sub: &'a Template = &reg.features[fi].templates[vi];
                    let child = plan_template(ctx, sub, child_path.as_str(), depth - 1);
                    let deferred = match sub.outer_guide() {
                        Some(GuideKind::Circle) => true,
                        _ => false,
                    };
                    filled.push(SlotPlan::Filled(Box::new(Placement {
                        feature: fi, variant: vi, path: child_path, deferred, plan: child,
                    })));
                },
            }
        }
        assert(slot_plan_ok(filled@[k as int], reg0, rules0, origin0, before, sv[k as int], path@, depth as nat));
        assert(before == slots_memo(reg0, rules0, origin0, m1, sv.take(k as int), path@, depth as nat));
        k = k + 1;
    }
    assert(sv.take(k as int) =~= sv);
    let r = Plan { dropped, slots: filled };
    assert(plan_ok(r, reg0, rules0, origin0, m0, *template, path@, depth as nat));
    r
}

} // verus!
