use vstd::prelude::*;
use vstd::string::*;
use crate::context::{chosen, draw, memo_after, seed_for, stream_word, GenerationContext, Registry, SeedView};
use crate::plan::{lemma_plan_determined, plan_ok, plan_template, plans_agree, template_at, Plan};
use crate::weights::Weight;
use crate::text::{join, joined};
use crate::weights::Weights;

verus! {

/// The species drawn by `word`, with relative weights human 30, dwarf 15,
/// elf 15, goblin 1, cyclops 1.
pub open spec fn species_of(word: u64) -> Seq<char> {
    let t = word % 62;
    if t < 30 {
        "human"@
    } else if t < 45 {
        "dwarf"@
    } else if t < 60 {
        "elf"@
    } else if t < 61 {
        "goblin"@
    } else {
        "cyclops"@
    }
}

/// Draws a species from a word of the stream.
pub fn species_for(word: u64) -> (r: String)
    ensures
        r@ == species_of(word),
{
    let t = word % 62;
    if t < 30 {
        String::from_str("human")
    } else if t < 45 {
        String::from_str("dwarf")
    } else if t < 60 {
        String::from_str("elf")
    } else if t < 61 {
        String::from_str("goblin")
    } else {
        String::from_str("cyclops")
    }
}

/// The sex drawn by `word`: `male` or `female`, evenly.
pub open spec fn sex_of(word: u64) -> Seq<char> {
    if word % 2 == 0 {
        "male"@
    } else {
        "female"@
    }
}

pub fn sex_for(word: u64) -> (r: String)
    ensures
        r@ == sex_of(word),
{
    if word % 2 == 0 {
        String::from_str("male")
    } else {
        String::from_str("female")
    }
}

/// Stream positions of the top-level draws.
pub const SPECIES_DRAW: u64 = 0;
pub const PALETTE_DRAW: u64 = 1;
pub const COLOR_DRAW: u64 = 2;
pub const SEX_DRAW: u64 = 3;
pub const CONTEXT_DRAW: u64 = 4;

/// One generated face: the sex drawn, the frame template chosen at the root,
/// its selector path, and every decision taken inside it.
pub struct Face {
    pub sex: String,
    pub frame_feature: usize,
    pub frame_variant: usize,
    pub path: String,
    pub plan: Plan,
}

/// The stream that a face generation's seed memo draws from.
pub open spec fn context_origin(seed: u64) -> u64 {
    stream_word(seed, CONTEXT_DRAW)
}

/// The selector path at which the root `frame` is chosen.
pub open spec fn root_path(seed: u64, palette_path: Seq<char>) -> Seq<char> {
    joined(palette_path, sex_of(stream_word(seed, SEX_DRAW)))
}

/// The memo once the root has been chosen.
pub open spec fn root_memo(seed: u64) -> Seq<SeedView> {
    memo_after(Seq::empty(), context_origin(seed), "frame"@, Seq::empty())
}

/// `r` is the face that `seed` generates under `palette_path`: `None` when
/// no frame is chosen at the root path, else the chosen frame, expanded with
/// as many levels of nesting as there are features.
pub open spec fn face_ok(
    reg: Registry,
    rules: Seq<(Seq<char>, Weight)>,
    seed: u64,
    palette_path: Seq<char>,
    r: Option<Face>,
) -> bool {
    match chosen(
        reg,
        rules,
        root_path(seed, palette_path),
        "frame"@,
        seed_for(Seq::empty(), context_origin(seed), "frame"@, Seq::empty()),
    ) {
        None => r is None,
        Some((fi, vi, p)) => r matches Some(face) && {
            &&& face.frame_feature == fi
            &&& face.frame_variant == vi
            &&& fi < reg.features@.len()
            &&& vi < reg.features@[fi as int].templates@.len()
            &&& face.path@ == p
            &&& face.sex@ == sex_of(stream_word(seed, SEX_DRAW))
            &&& plan_ok(
                face.plan,
                reg,
                rules,
                context_origin(seed),
                root_memo(seed),
                template_at(reg, fi, vi),
                p,
                reg.features@.len(),
            )
        },
    }
}

/// Two faces take the same decisions throughout.
pub open spec fn faces_agree(a: Option<Face>, b: Option<Face>, depth: nat) -> bool {
    match (a, b) {
        (None, None) => true,
        (Some(x), Some(y)) => {
            &&& x.frame_feature == y.frame_feature
            &&& x.frame_variant == y.frame_variant
            &&& x.path@ == y.path@
            &&& x.sex@ == y.sex@
            &&& plans_agree(x.plan, y.plan, depth)
        },
        _ => false,
    }
}

/// Generation is determined by its inputs: the same templates, weights,
/// seed and palette path give faces that take the same decisions.
pub proof fn lemma_same_seed_same_face(
    reg: Registry,
    rules: Seq<(Seq<char>, Weight)>,
    seed: u64,
    palette_path: Seq<char>,
    a: Option<Face>,
    b: Option<Face>,
)
    requires
        face_ok(reg, rules, seed, palette_path, a),
        face_ok(reg, rules, seed, palette_path, b),
    ensures
        faces_agree(a, b, reg.features@.len()),
{
    match chosen(
        reg,
        rules,
        root_path(seed, palette_path),
        "frame"@,
        seed_for(Seq::empty(), context_origin(seed), "frame"@, Seq::empty()),
    ) {
        None => {},
        Some((fi, vi, p)) => {
            let x = a->Some_0;
            let y = b->Some_0;
            lemma_plan_determined(
                x.plan,
                y.plan,
                reg,
                rules,
                context_origin(seed),
                root_memo(seed),
                template_at(reg, fi, vi),
                p,
                reg.features@.len(),
            );
        },
    }
}

/// Loaded templates and weights, ready to generate faces.
pub struct Generator {
    pub registry: Registry,
    pub weights: Weights,
}

impl Generator {
    pub open spec fn wf(&self) -> bool {
        self.registry.wf() && self.weights.wf()
    }

    pub fn new(registry: Registry, weights: Weights) -> (r: Generator)
        ensures
            r.registry == registry,
            r.weights == weights,
    {
        Generator { registry, weights }
    }

    /// The species of the face that `seed` generates.
    pub fn species(seed: u64) -> (r: String)
        ensures
            r@ == species_of(stream_word(seed, SPECIES_DRAW)),
    {
        species_for(draw(seed, SPECIES_DRAW))
    }

    /// Generates the face that `seed` starts, under the palette path that
    /// the palette sampling produced: draws the sex, then expands the root
    /// `frame` feature at `<palette_path>:<sex>`. `None` when no frame is
    /// chosen.
    pub fn generate(&self, seed: u64, palette_path: &str) -> (r: Option<Face>)
        requires
            self.wf(),
        ensures
            face_ok(self.registry, self.weights@, seed, palette_path@, r),
    {
        let sex = sex_for(draw(seed, SEX_DRAW));
        let root = join(palette_path, sex.as_str());
        let mut ctx = GenerationContext::new(&self.registry, &self.weights, draw(seed, CONTEXT_DRAW));
        let empty = String::new();
        assert(empty@ =~= Seq::<char>::empty());
        proof {
            reveal_strlit("frame");
            reveal_strlit("_back");
        }
        assert(!crate::context::is_back_name("frame"@)) by {
            assert("frame"@.skip(0) =~= "frame"@);
            assert("frame"@[0] != "_back"@[0]);
        }
        match ctx.choose_variant(root.as_str(), "frame", empty.as_str()) {
            None => None,
            Some((fi, vi, path)) => {
                let frame = &self.registry.features[fi].templates[vi];
                let depth = self.registry.features.len();
                let plan = plan_template(&mut ctx, frame, path.as_str(), depth);
                Some(Face { sex, frame_feature: fi, frame_variant: vi, path, plan })
            },
        }
    }
}

} // verus!
