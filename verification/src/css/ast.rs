//! The mathematical model of selector syntax trees, and the views that map
//! the public syntax tree types onto it.
use vstd::prelude::*;

use super::parser::{
    AttrOp, AttributeSelector, Combinator, CompoundSelector, ParseError, PseudoClass, Selector,
    SelectorList,
};

verus! {

/// An attribute selector as the contracts see it.
pub struct SpecAttr {
    pub name: Seq<char>,
    pub op: AttrOp,
    pub value: Seq<char>,
    pub case_insensitive: bool,
}

/// A pseudo-class as the contracts see it.
pub enum SpecPseudo {
    FirstChild,
    LastChild,
    FirstOfType,
    LastOfType,
    OnlyChild,
    OnlyOfType,
    Empty,
    Root,
    NthChild { a: i32, b: i32 },
    NthLastChild { a: i32, b: i32 },
    NthOfType { a: i32, b: i32 },
    NthLastOfType { a: i32, b: i32 },
    Not(Box<SpecCompound>),
    Is(Seq<Seq<SpecCompound>>),
    Has(Seq<Seq<SpecCompound>>),
    Lang(Seq<char>),
    Link,
    Visited,
    Enabled,
    Disabled,
    Checked,
    Indeterminate,
    Required,
    Optional,
    ReadOnly,
    ReadWrite,
    Valid,
    Invalid,
    InRange,
    OutOfRange,
    Target,
    Unknown(Seq<char>),
}

/// A compound selector as the contracts see it.
pub struct SpecCompound {
    pub tag: Option<Seq<char>>,
    pub id: Option<Seq<char>>,
    pub classes: Seq<Seq<char>>,
    pub attrs: Seq<SpecAttr>,
    pub pseudo_classes: Seq<SpecPseudo>,
}

/// A selector chain as the contracts see it.
pub struct SpecSelector {
    pub parts: Seq<(Combinator, SpecCompound)>,
}

/// A comma-separated selector list as the contracts see it.
pub struct SpecSelectorList {
    pub selectors: Seq<SpecSelector>,
}

/// A parse error as the contracts see it.
pub struct SpecParseError {
    pub message: Seq<char>,
    pub position: int,
}

/// The compound selector with nothing in it.
pub open spec fn empty_compound() -> SpecCompound {
    SpecCompound {
        tag: None,
        id: None,
        classes: seq![],
        attrs: seq![],
        pseudo_classes: seq![],
    }
}

pub open spec fn opt_string_view(o: Option<String>) -> Option<Seq<char>> {
    match o {
        Some(s) => Some(s@),
        None => None,
    }
}

pub open spec fn strings_view(v: Seq<String>) -> Seq<Seq<char>> {
    v.map_values(|s: String| s@)
}

pub open spec fn attrs_view(v: Seq<AttributeSelector>) -> Seq<SpecAttr> {
    v.map_values(|a: AttributeSelector| a@)
}

pub open spec fn compound_view(c: CompoundSelector) -> SpecCompound
    decreases c,
{
    SpecCompound {
        tag: opt_string_view(c.tag),
        id: opt_string_view(c.id),
        classes: strings_view(c.classes@),
        attrs: attrs_view(c.attrs@),
        pseudo_classes: pseudos_view(c.pseudo_classes@),
    }
}

pub open spec fn pseudos_view(v: Seq<PseudoClass>) -> Seq<SpecPseudo>
    decreases v,
{
    if v.len() == 0 {
        seq![]
    } else {
        pseudos_view(v.subrange(0, v.len() - 1)).push(pseudo_view(v[v.len() - 1]))
    }
}

pub open spec fn chain_view(v: Seq<CompoundSelector>) -> Seq<SpecCompound>
    decreases v,
{
    if v.len() == 0 {
        seq![]
    } else {
        chain_view(v.subrange(0, v.len() - 1)).push(compound_view(v[v.len() - 1]))
    }
}

pub open spec fn chains_view(v: Seq<Vec<CompoundSelector>>) -> Seq<Seq<SpecCompound>>
    decreases v,
{
    if v.len() == 0 {
        seq![]
    } else {
        chains_view(v.subrange(0, v.len() - 1)).push(chain_view(v[v.len() - 1]@))
    }
}

pub open spec fn pseudo_view(p: PseudoClass) -> SpecPseudo
    decreases p,
{
    match p {
        PseudoClass::FirstChild => SpecPseudo::FirstChild,
        PseudoClass::LastChild => SpecPseudo::LastChild,
        PseudoClass::FirstOfType => SpecPseudo::FirstOfType,
        PseudoClass::LastOfType => SpecPseudo::LastOfType,
        PseudoClass::OnlyChild => SpecPseudo::OnlyChild,
        PseudoClass::OnlyOfType => SpecPseudo::OnlyOfType,
        PseudoClass::Empty => SpecPseudo::Empty,
        PseudoClass::Root => SpecPseudo::Root,
        PseudoClass::NthChild { a, b } => SpecPseudo::NthChild { a, b },
        PseudoClass::NthLastChild { a, b } => SpecPseudo::NthLastChild { a, b },
        PseudoClass::NthOfType { a, b } => SpecPseudo::NthOfType { a, b },
        PseudoClass::NthLastOfType { a, b } => SpecPseudo::NthLastOfType { a, b },
        PseudoClass::Not(c) => SpecPseudo::Not(Box::new(compound_view(*c))),
        PseudoClass::Is(v) => SpecPseudo::Is(chains_view(v@)),
        PseudoClass::Has(v) => SpecPseudo::Has(chains_view(v@)),
        PseudoClass::Lang(s) => SpecPseudo::Lang(s@),
        PseudoClass::Link => SpecPseudo::Link,
        PseudoClass::Visited => SpecPseudo::Visited,
        PseudoClass::Enabled => SpecPseudo::Enabled,
        PseudoClass::Disabled => SpecPseudo::Disabled,
        PseudoClass::Checked => SpecPseudo::Checked,
        PseudoClass::Indeterminate => SpecPseudo::Indeterminate,
        PseudoClass::Required => SpecPseudo::Required,
        PseudoClass::Optional => SpecPseudo::Optional,
        PseudoClass::ReadOnly => SpecPseudo::ReadOnly,
        PseudoClass::ReadWrite => SpecPseudo::ReadWrite,
        PseudoClass::Valid => SpecPseudo::Valid,
        PseudoClass::Invalid => SpecPseudo::Invalid,
        PseudoClass::InRange => SpecPseudo::InRange,
        PseudoClass::OutOfRange => SpecPseudo::OutOfRange,
        PseudoClass::Target => SpecPseudo::Target,
        PseudoClass::Unknown(s) => SpecPseudo::Unknown(s@),
    }
}

pub open spec fn parts_view(v: Seq<(Combinator, CompoundSelector)>) -> Seq<(Combinator, SpecCompound)> {
    v.map_values(|p: (Combinator, CompoundSelector)| (p.0, compound_view(p.1)))
}

pub open spec fn selectors_view(v: Seq<Selector>) -> Seq<SpecSelector> {
    v.map_values(|s: Selector| s@)
}

pub proof fn lemma_pseudos_view(v: Seq<PseudoClass>)
    ensures
        pseudos_view(v).len() == v.len(),
        forall|i: int| 0 <= i < v.len() ==> #[trigger] pseudos_view(v)[i] == pseudo_view(v[i]),
    decreases v.len(),
{
    if v.len() > 0 {
        lemma_pseudos_view(v.subrange(0, v.len() - 1));
        assert forall|i: int| 0 <= i < v.len() implies #[trigger] pseudos_view(v)[i] == pseudo_view(
            v[i],
        ) by {
            if i < v.len() - 1 {
                assert(v.subrange(0, v.len() - 1)[i] == v[i]);
            }
        }
    }
}

pub proof fn lemma_chain_view(v: Seq<CompoundSelector>)
    ensures
        chain_view(v).len() == v.len(),
        forall|i: int| 0 <= i < v.len() ==> #[trigger] chain_view(v)[i] == compound_view(v[i]),
    decreases v.len(),
{
    if v.len() > 0 {
        lemma_chain_view(v.subrange(0, v.len() - 1));
        assert forall|i: int| 0 <= i < v.len() implies #[trigger] chain_view(v)[i] == compound_view(
            v[i],
        ) by {
            if i < v.len() - 1 {
                assert(v.subrange(0, v.len() - 1)[i] == v[i]);
            }
        }
    }
}

pub proof fn lemma_chains_view(v: Seq<Vec<CompoundSelector>>)
    ensures
        chains_view(v).len() == v.len(),
        forall|i: int| 0 <= i < v.len() ==> #[trigger] chains_view(v)[i] == chain_view(v[i]@),
    decreases v.len(),
{
    if v.len() > 0 {
        lemma_chains_view(v.subrange(0, v.len() - 1));
        assert forall|i: int| 0 <= i < v.len() implies #[trigger] chains_view(v)[i] == chain_view(
            v[i]@,
        ) by {
            if i < v.len() - 1 {
                assert(v.subrange(0, v.len() - 1)[i] == v[i]);
            }
        }
    }
}

impl View for AttributeSelector {
    type V = SpecAttr;

    open spec fn view(&self) -> SpecAttr {
        SpecAttr {
            name: self.name@,
            op: self.op,
            value: self.value@,
            case_insensitive: self.case_insensitive,
        }
    }
}

impl View for CompoundSelector {
    type V = SpecCompound;

    open spec fn view(&self) -> SpecCompound {
        compound_view(*self)
    }
}

impl View for PseudoClass {
    type V = SpecPseudo;

    open spec fn view(&self) -> SpecPseudo {
        pseudo_view(*self)
    }
}

impl View for Selector {
    type V = SpecSelector;

    open spec fn view(&self) -> SpecSelector {
        SpecSelector { parts: parts_view(self.parts@) }
    }
}

impl View for SelectorList {
    type V = SpecSelectorList;

    open spec fn view(&self) -> SpecSelectorList {
        SpecSelectorList { selectors: selectors_view(self.selectors@) }
    }
}

impl View for ParseError {
    type V = SpecParseError;

    open spec fn view(&self) -> SpecParseError {
        SpecParseError { message: self.message@, position: self.position as int }
    }
}

} // verus!
