use vstd::prelude::*;
use vstd::string::*;
use crate::error::LoadError;
use crate::text::{same_text, slice_text};
use crate::weights::{index_of, last_index_of, lemma_index_of};

verus! {

/// The two kinds of placement guide.
#[derive(Clone, Copy, PartialEq, Eq, Debug, Structural)]
pub enum GuideKind {
    /// Four ordered corners: children are fitted by a projective transform.
    Quad,
    /// Centre and radius: children are scaled without distortion.
    Circle,
}

/// The element that draws a guide, as far as the guide rules read it.
#[derive(Clone, Copy, PartialEq, Eq, Debug, Structural)]
pub enum GuideShape {
    /// A path with this many segments.
    Path(usize),
    Rect,
    Circle,
    /// Any other element.
    Other,
}

/// Which guide a shape makes: a path of five segments or a rect is a quad, a
/// path of four segments (a triangle) or a circle is a circle; anything else
/// is malformed.
pub open spec fn guide_kind_of(shape: GuideShape) -> Option<GuideKind> {
    match shape {
        GuideShape::Path(n) => if n == 5 {
            Some(GuideKind::Quad)
        } else if n == 4 {
            Some(GuideKind::Circle)
        } else {
            None
        },
        GuideShape::Rect => Some(GuideKind::Quad),
        GuideShape::Circle => Some(GuideKind::Circle),
        GuideShape::Other => None,
    }
}

/// The kind of guide that a marker element defines.
pub fn guide_kind(shape: GuideShape) -> (r: Result<GuideKind, LoadError>)
    ensures
        match guide_kind_of(shape) {
            Some(k) => r == Ok::<GuideKind, LoadError>(k),
            None => r == Err::<GuideKind, LoadError>(LoadError::MalformedGuide),
        },
{
    match shape {
        GuideShape::Path(n) => if n == 5 {
            Ok(GuideKind::Quad)
        } else if n == 4 {
            Ok(GuideKind::Circle)
        } else {
            Err(LoadError::MalformedGuide)
        },
        GuideShape::Rect => Ok(GuideKind::Quad),
        GuideShape::Circle => Ok(GuideKind::Circle),
        GuideShape::Other => Err(LoadError::MalformedGuide),
    }
}

/// How a slot's guide is jittered when its template is loaded.
#[derive(Clone, Copy, PartialEq, Eq, Debug, Structural)]
pub enum Jitter {
    Skull,
    Nose,
    Fixed,
}

pub open spec fn jitter_of(feature: Seq<char>) -> Jitter {
    if feature == "skull"@ {
        Jitter::Skull
    } else if feature == "nose"@ {
        Jitter::Nose
    } else {
        Jitter::Fixed
    }
}

/// Skull and nose slots are jittered; others keep their guide as drawn.
pub fn jitter_for(feature: &str) -> (r: Jitter)
    ensures
        r == jitter_of(feature@),
{
    if same_text(feature, "skull") {
        Jitter::Skull
    } else if same_text(feature, "nose") {
        Jitter::Nose
    } else {
        Jitter::Fixed
    }
}

pub open spec fn has_prefix(s: Seq<char>, p: Seq<char>) -> bool {
    p.len() <= s.len() && s.take(p.len() as int) == p
}

pub open spec fn is_slot_id(id: Seq<char>) -> bool {
    has_prefix(id, "guide_"@)
}

pub open spec fn is_option_id(id: Seq<char>) -> bool {
    !is_slot_id(id) && has_prefix(id, "option_"@)
}

/// In `guide_<name>[-<suffix>]`, the name: what follows `guide_` up to the first `-`.
pub open spec fn slot_name(id: Seq<char>) -> Seq<char> {
    let rest = id.skip(6);
    rest.take(index_of(rest, '-') as int)
}

/// In `option_<name>[-<suffix>]`, the name: what follows `option_` up to the
/// first `:` or `-`.
pub open spec fn option_name(id: Seq<char>) -> Seq<char> {
    let rest = id.skip(7);
    let a = index_of(rest, ':');
    let b = index_of(rest, '-');
    rest.take(if a < b { a as int } else { b as int })
}

/// The feature a slot name asks for: all before the last `:`.
pub open spec fn feature_of(name: Seq<char>) -> Seq<char> {
    match last_index_of(name, ':') {
        Some(k) => name.take(k as int),
        None => name,
    }
}

/// The variant selector of a slot name: all after the last `:`, or empty.
pub open spec fn variant_of(name: Seq<char>) -> Seq<char> {
    match last_index_of(name, ':') {
        Some(k) => name.skip(k + 1 as int),
        None => Seq::empty(),
    }
}

/// A marker id is well formed when a slot or option marker names something.
pub open spec fn id_ok(id: Seq<char>) -> bool {
    &&& is_slot_id(id) ==> slot_name(id).len() > 0
    &&& is_option_id(id) ==> option_name(id).len() > 0
}

pub open spec fn ids_ok(ids: Seq<Seq<char>>) -> bool {
    forall|i: int| 0 <= i < ids.len() ==> id_ok(#[trigger] ids[i])
}

/// A slot as the contracts see it: feature, variant selector, node index.
pub type SlotView = (Seq<char>, Seq<char>, nat);

/// The slots that the ids mark, in document order.
pub open spec fn slots_of(ids: Seq<Seq<char>>) -> Seq<SlotView>
    decreases ids.len(),
{
    if ids.len() == 0 {
        Seq::empty()
    } else {
        let rest = slots_of(ids.drop_last());
        let id = ids.last();
        if is_slot_id(id) {
            rest.push((feature_of(slot_name(id)), variant_of(slot_name(id)), (ids.len() - 1) as nat))
        } else {
            rest
        }
    }
}

/// The optional nodes that the ids mark, in document order.
pub open spec fn options_of(ids: Seq<Seq<char>>) -> Seq<(Seq<char>, nat)>
    decreases ids.len(),
{
    if ids.len() == 0 {
        Seq::empty()
    } else {
        let rest = options_of(ids.drop_last());
        let id = ids.last();
        if is_option_id(id) {
            rest.push((option_name(id), (ids.len() - 1) as nat))
        } else {
            rest
        }
    }
}

pub open spec fn id_views(ids: Seq<String>) -> Seq<Seq<char>> {
    ids.map_values(|s: String| s@)
}

/// A child-placement site of a template.
pub struct Slot {
    pub feature: String,
    pub variant: String,
    pub node: usize,
    pub jitter: Jitter,
}

/// A node that is dropped unless the context keeps it.
pub struct OptionalNode {
    pub name: String,
    pub node: usize,
}

/// The composition structure of one template: its slots and optional nodes,
/// each by index into the descendants of its contents, and the kind of its
/// outer guide.
pub struct Template {
    slots: Vec<Slot>,
    optional_nodes: Vec<OptionalNode>,
    node_count: usize,
    outer_guide: Option<GuideKind>,
}

impl Template {
    pub closed spec fn slot_views(&self) -> Seq<SlotView> {
        self.slots@.map_values(|s: Slot| (s.feature@, s.variant@, s.node as nat))
    }

    pub closed spec fn option_views(&self) -> Seq<(Seq<char>, nat)> {
        self.optional_nodes@.map_values(|o: OptionalNode| (o.name@, o.node as nat))
    }

    pub closed spec fn spec_node_count(&self) -> nat {
        self.node_count as nat
    }

    pub closed spec fn spec_outer_guide(&self) -> Option<GuideKind> {
        self.outer_guide
    }

    /// Every recorded node index names a descendant of the contents.
    pub open spec fn wf(&self) -> bool {
        &&& forall|i: int| 0 <= i < self.slot_views().len() ==> (#[trigger] self.slot_views()[i]).2
            < self.spec_node_count()
        &&& forall|i: int| 0 <= i < self.option_views().len() ==> (#[trigger] self.option_views()[i]).1
            < self.spec_node_count()
    }

    /// Reads the slots and optional nodes of a template from the ids of the
    /// descendants of its contents, in document order (an empty string for a
    /// node without id).
    pub fn new(ids: &Vec<String>, outer_guide: Option<GuideKind>) -> (r: Result<Template, LoadError>)
        ensures
            r is Ok == ids_ok(id_views(ids@)),
            r matches Ok(t) ==> {
                &&& t.slot_views() == slots_of(id_views(ids@))
                &&& t.option_views() == options_of(id_views(ids@))
                &&& t.spec_node_count() == ids@.len()
                &&& t.spec_outer_guide() == outer_guide
                &&& t.wf()
            },
            r matches Err(e) ==> e == LoadError::MalformedTemplate,
    {
        let mut slots: Vec<Slot> = Vec::new();
        let mut optional_nodes: Vec<OptionalNode> = Vec::new();
        let mut i: usize = 0;
        while i < ids.len()
            invariant
                i <= ids@.len(),
                ids_ok(id_views(ids@).take(i as int)),
                slots@.map_values(|s: Slot| (s.feature@, s.variant@, s.node as nat)) == slots_of(
                    id_views(ids@).take(i as int),
                ),
                optional_nodes@.map_values(|o: OptionalNode| (o.name@, o.node as nat)) == options_of(
                    id_views(ids@).take(i as int),
                ),
                forall|j: int| 0 <= j < slots@.len() ==> (#[trigger] slots@[j]).node < i,
                forall|j: int| 0 <= j < optional_nodes@.len() ==> (#[trigger] optional_nodes@[j]).node < i,
            decreases ids@.len() - i,
        {
            let id: &str = ids[i].as_str();
            let ghost vs = id_views(ids@);
            assert(vs.take(i + 1).drop_last() =~= vs.take(i as int));
            assert(vs[i as int] == id@);
            match read_marker(id) {
                Err(e) => {
                    assert(!ids_ok(vs)) by {
                        assert(!id_ok(vs[i as int]));
                    }
                    return Err(e);
                },
                Ok(Marker::Slot(feature, variant)) => {
                    let jitter = jitter_for(feature.as_str());
                    slots.push(Slot { feature, variant, node: i, jitter });
                },
                Ok(Marker::Optional(name)) => {
                    optional_nodes.push(OptionalNode { name, node: i });
                },
                Ok(Marker::Plain) => {},
            }
            assert(slots@.map_values(|s: Slot| (s.feature@, s.variant@, s.node as nat)) =~= slots_of(
                vs.take(i + 1),
            ));
            assert(optional_nodes@.map_values(|o: OptionalNode| (o.name@, o.node as nat)) =~= options_of(
                vs.take(i + 1),
            ));
            assert(ids_ok(vs.take(i + 1))) by {
                assert forall|j: int| 0 <= j < i + 1 implies id_ok(#[trigger] vs.take(i + 1)[j]) by {
                    if j < i {
                        assert(vs.take(i + 1)[j] == vs.take(i as int)[j]);
                    }
                }
            }
            i = i + 1;
        }
        let ghost vs = id_views(ids@);
        assert(vs.take(i as int) =~= vs);
        let t = Template { slots, optional_nodes, node_count: ids.len(), outer_guide };
        assert(t.wf()) by {
            assert forall|j: int| 0 <= j < t.slot_views().len() implies (#[trigger] t.slot_views()[j]).2
                < t.spec_node_count() by {
                assert(t.slot_views()[j].2 == t.slots@[j].node);
            }
            assert forall|j: int| 0 <= j < t.option_views().len() implies (
            #[trigger] t.option_views()[j]).1 < t.spec_node_count() by {
                assert(t.option_views()[j].1 == t.optional_nodes@[j].node);
            }
        }
        Ok(t)
    }

    pub fn slots(&self) -> (r: &Vec<Slot>)
        ensures
            r@.map_values(|s: Slot| (s.feature@, s.variant@, s.node as nat)) == self.slot_views(),
    {
        &self.slots
    }

    pub fn optional_nodes(&self) -> (r: &Vec<OptionalNode>)
        ensures
            r@.map_values(|o: OptionalNode| (o.name@, o.node as nat)) == self.option_views(),
    {
        &self.optional_nodes
    }

    pub fn node_count(&self) -> (r: usize)
        ensures
            r == self.spec_node_count(),
    {
        self.node_count
    }

    pub fn outer_guide(&self) -> (r: Option<GuideKind>)
        ensures
            r == self.spec_outer_guide(),
    {
        self.outer_guide
    }
}

/// What one node id marks.
pub enum Marker {
    Slot(String, String),
    Optional(String),
    Plain,
}

fn starts_with_text(s: &str, p: &str) -> (r: bool)
    ensures
        r == has_prefix(s@, p@),
{
    let n = s.unicode_len();
    let m = p.unicode_len();
    if m > n {
        return false;
    }
    same_text(s.substring_char(0, m), p)
}

/// Reads one node id: a slot marker `guide_<feature>[:<variant>][-<suffix>]`,
/// an optional marker `option_<name>[-<suffix>]`, or neither.
pub fn read_marker(id: &str) -> (r: Result<Marker, LoadError>)
    ensures
        r is Ok == id_ok(id@),
        r matches Ok(Marker::Slot(f, v)) ==> is_slot_id(id@) && f@ == feature_of(slot_name(id@))
            && v@ == variant_of(slot_name(id@)),
        r matches Ok(Marker::Optional(o)) ==> is_option_id(id@) && o@ == option_name(id@),
        r matches Ok(Marker::Plain) ==> !is_slot_id(id@) && !is_option_id(id@),
        r matches Err(e) ==> e == LoadError::MalformedTemplate,
{
    let n = id.unicode_len();
    if starts_with_text(id, "guide_") {
        proof {
            reveal_strlit("guide_");
        }
        let rest = id.substring_char(6, n);
        let cut = crate::weights::find_char_in(rest, '-');
        if cut == 0 {
            return Err(LoadError::MalformedTemplate);
        }
        let name = rest.substring_char(0, cut);
        assert(name@ == slot_name(id@));
        match crate::weights::find_last_char_in(name, ':') {
            Some(k) => {
                let feature = slice_text(name, 0, k);
                let variant = slice_text(name, k + 1, cut);
                Ok(Marker::Slot(feature, variant))
            },
            None => {
                let feature = String::from_str(name);
                let variant = String::new();
                assert(variant@ =~= Seq::<char>::empty());
                Ok(Marker::Slot(feature, variant))
            },
        }
    } else if starts_with_text(id, "option_") {
        proof {
            reveal_strlit("option_");
        }
        let rest = id.substring_char(7, n);
        let a = crate::weights::find_char_in(rest, ':');
        let b = crate::weights::find_char_in(rest, '-');
        let cut = if a < b { a } else { b };
        if cut == 0 {
            return Err(LoadError::MalformedTemplate);
        }
        Ok(Marker::Optional(slice_text(rest, 0, cut)))
    } else {
        Ok(Marker::Plain)
    }
}

/// Each recorded slot and optional node index names an existing descendant
/// of the contents they were read from.
pub proof fn lemma_recorded_nodes_exist(ids: Seq<Seq<char>>)
    ensures
        forall|i: int| 0 <= i < slots_of(ids).len() ==> (#[trigger] slots_of(ids)[i]).2 < ids.len(),
        forall|i: int| 0 <= i < options_of(ids).len() ==> (#[trigger] options_of(ids)[i]).1 < ids.len(),
    decreases ids.len(),
{
    if ids.len() > 0 {
        let rest = ids.drop_last();
        lemma_recorded_nodes_exist(rest);
        assert forall|i: int| 0 <= i < slots_of(ids).len() implies (
        #[trigger] slots_of(ids)[i]).2 < ids.len() by {
            if i < slots_of(rest).len() {
                assert(slots_of(ids)[i] == slots_of(rest)[i]);
            }
        }
        assert forall|i: int| 0 <= i < options_of(ids).len() implies (
        #[trigger] options_of(ids)[i]).1 < ids.len() by {
            if i < options_of(rest).len() {
                assert(options_of(ids)[i] == options_of(rest)[i]);
            }
        }
    }
}

} // verus!
