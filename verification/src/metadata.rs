//! Attribute metadata extraction and renderer synthesis.
//!
//! A type definition carries a tag-name annotation at the type level and,
//! for enum-shaped definitions, one value annotation per variant.  The
//! extractor reads those annotations into an ordered list of attribute
//! metadata whose keys are the variant identifiers normalized into lower
//! snake casing; the synthesizer combines the metadata with the tag name
//! into an element definition whose render operation is total.

use vstd::prelude::*;
use vstd::pervasive::unreached;
use crate::casing::{classify_spec, parse_spec, parse};
use crate::casing::join;
use crate::html::{property_spec, opening_tag_spec, tag_spec, pairs_views};
use crate::html::{MarkupNode, property};

verus! {

/// Failures of metadata extraction and renderer synthesis.
///
/// `Missing` names the absent annotation (the type-level tag name, or the
/// variant that lacks a value annotation); `UnsupportedShape` names the
/// actual shape a wrongly-shaped definition has; `DuplicateKey` names an
/// attribute key that two distinct identifiers normalize to.
#[derive(Clone, Debug, PartialEq)]
pub enum MetadataError {
    Missing(String),
    UnsupportedShape(String),
    DuplicateKey(String),
}

/// One annotated field of a struct-shaped definition.
pub struct FieldDef {
    pub ident: String,
    pub value: Option<String>,
}

/// One annotated variant of an enum-shaped definition.
pub struct VariantDef {
    pub ident: String,
    pub value: Option<String>,
}

/// The body of a type definition.
pub enum TypeData {
    Struct(Vec<FieldDef>),
    Enum(Vec<VariantDef>),
    Union,
}

/// A type definition as the extractor sees it: its identifier, the
/// type-level tag-name annotation if present, and its annotated body.
pub struct TypeDef {
    pub ident: String,
    pub tag_name: Option<String>,
    pub data: TypeData,
}

/// An attribute key, already casing-normalized, paired with its value.
#[derive(Debug)]
pub struct AttributeMetadata {
    pub key: String,
    pub value: String,
}

/// The attribute key a variant identifier normalizes to.
pub open spec fn norm_key(ident: Seq<char>) -> Seq<char> {
    parse_spec(ident)->Some_0
}

/// Every variant identifier is accepted by the casing classifier, so its
/// normalized attribute key is defined.
pub open spec fn idents_classifiable(vs: Seq<VariantDef>) -> bool {
    forall|k: int| 0 <= k < vs.len() ==> classify_spec((#[trigger] vs[k]).ident@) is Some
}

/// Variant `k`'s normalized key collides with an earlier variant's.
pub open spec fn dup_at(vs: Seq<VariantDef>, k: int) -> bool {
    exists|j: int| 0 <= j < k && norm_key((#[trigger] vs[j]).ident@) == norm_key(vs[k].ident@)
}

/// Extraction succeeds: every variant carries a value annotation and no
/// two normalized keys collide.
pub open spec fn extract_ok(vs: Seq<VariantDef>) -> bool {
    &&& (forall|k: int| 0 <= k < vs.len() ==> (#[trigger] vs[k]).value is Some)
    &&& (forall|k: int| 0 <= k < vs.len() ==> !dup_at(vs, k))
}

/// Variant `k` is the first to lack a value annotation, and no duplicate
/// precedes it.
pub open spec fn first_error_missing(vs: Seq<VariantDef>, k: int) -> bool {
    &&& 0 <= k < vs.len()
    &&& vs[k].value is None
    &&& (forall|j: int| 0 <= j < k ==> (#[trigger] vs[j]).value is Some)
    &&& (forall|j: int| 0 <= j < k ==> !dup_at(vs, j))
}

/// Variant `k` is the first whose key collides, and every variant up to
/// and including it carries a value annotation.
pub open spec fn first_error_dup(vs: Seq<VariantDef>, k: int) -> bool {
    &&& 0 <= k < vs.len()
    &&& dup_at(vs, k)
    &&& (forall|j: int| 0 <= j <= k ==> (#[trigger] vs[j]).value is Some)
    &&& (forall|j: int| 0 <= j < k ==> !dup_at(vs, j))
}

/// The extracted metadata mirrors the variants: one entry per variant, in
/// declaration order, keyed by the normalized identifier and holding the
/// variant's value annotation.
pub open spec fn metas_match(vs: Seq<VariantDef>, ms: Seq<AttributeMetadata>) -> bool {
    &&& ms.len() == vs.len()
    &&& (forall|k: int|
        0 <= k < vs.len() ==> (#[trigger] ms[k]).key@ == norm_key(vs[k].ident@))
    &&& (forall|k: int| 0 <= k < vs.len() ==> (#[trigger] ms[k]).value@ == vs[k].value->Some_0@)
}

fn contains_key(metas: &Vec<AttributeMetadata>, key: &String) -> (b: bool)
    ensures
        b == exists|j: int| 0 <= j < metas@.len() && (#[trigger] metas@[j]).key@ == key@,
{
    let mut j: usize = 0;
    while j < metas.len()
        invariant
            0 <= j <= metas@.len(),
            forall|q: int| 0 <= q < j ==> (#[trigger] metas@[q]).key@ != key@,
        decreases metas@.len() - j,
    {
        if metas[j].key == *key {
            return true;
        }
        j += 1;
    }
    false
}

/// Read the per-variant value annotations of an enum-shaped definition
/// into attribute metadata, normalizing each variant identifier into a
/// lower snake attribute key.  A struct- or union-shaped definition fails
/// with `UnsupportedShape` naming the shape found; a variant without a
/// value annotation fails with `Missing` naming the variant; two variants
/// normalizing to one key fail with `DuplicateKey` naming the key.  The
/// first offending variant, in declaration order, decides the error.
pub fn extract_html_field_attrs(input: &TypeDef) -> (r: Result<Vec<AttributeMetadata>, MetadataError>)
    requires
        input.data matches TypeData::Enum(vs) ==> idents_classifiable(vs@),
    ensures
        input.data matches TypeData::Struct(_) ==> (r matches Err(MetadataError::UnsupportedShape(m))
            && m@ == "struct"@),
        input.data is Union ==> (r matches Err(MetadataError::UnsupportedShape(m)) && m@
            == "union"@),
        input.data matches TypeData::Enum(vs) ==> {
            &&& (r is Ok) == extract_ok(vs@)
            &&& (r matches Ok(metas) ==> metas_match(vs@, metas@))
            &&& (r matches Ok(metas) ==> keys_distinct(metas@))
            &&& (forall|k: int|
                first_error_missing(vs@, k) ==> (r matches Err(MetadataError::Missing(m)) && m@
                    == vs@[k].ident@))
            &&& (forall|k: int|
                first_error_dup(vs@, k) ==> (r matches Err(MetadataError::DuplicateKey(m)) && m@
                    == norm_key(vs@[k].ident@)))
        },
{
    match &input.data {
        TypeData::Struct(_) => Err(MetadataError::UnsupportedShape(String::from_str("struct"))),
        TypeData::Union => Err(MetadataError::UnsupportedShape(String::from_str("union"))),
        TypeData::Enum(variants) => {
            let mut metas: Vec<AttributeMetadata> = Vec::new();
            let mut k: usize = 0;
            while k < variants.len()
                invariant
                    0 <= k <= variants@.len(),
                    (input.data matches TypeData::Enum(vv) && vv@ == variants@),
                    idents_classifiable(variants@),
                    forall|j: int| 0 <= j < k ==> (#[trigger] variants@[j]).value is Some,
                    forall|j: int| 0 <= j < k ==> !dup_at(variants@, j),
                    metas_match(variants@.take(k as int), metas@),
                decreases variants@.len() - k,
            {
                let ghost vs = variants@;
                let variant = &variants[k];
                match &variant.value {
                    Option::None => {
                        proof {
                            assert(first_error_missing(vs, k as int));
                        }
                        return Err(MetadataError::Missing(variant.ident.clone()));
                    },
                    Option::Some(v) => {
                        let key = match parse(variant.ident.as_str()) {
                            Ok(key) => key,
                            Err(_) => {
                                proof {
                                    crate::casing::lemma_round_trip(variant.ident@);
                                }
                                unreached()
                            },
                        };
                        if contains_key(&metas, &key) {
                            proof {
                                assert(dup_at(vs, k as int));
                                assert(first_error_dup(vs, k as int));
                            }
                            return Err(MetadataError::DuplicateKey(key));
                        }
                        proof {
                            assert(!dup_at(vs, k as int)) by {
                                if dup_at(vs, k as int) {
                                    let j = choose|j: int|
                                        0 <= j < k && norm_key(
                                            (#[trigger] vs[j]).ident@,
                                        ) == norm_key(vs[k as int].ident@);
                                    assert(metas@[j].key@ == norm_key(vs[k as int].ident@));
                                }
                            }
                        }
                        metas.push(AttributeMetadata { key, value: v.clone() });
                        proof {
                            assert(metas_match(vs.take(k + 1 as int), metas@));
                        }
                    },
                }
                k += 1;
            }
            proof {
                assert(variants@.take(variants@.len() as int) =~= variants@);
                assert forall|a: int, b: int|
                    0 <= a < b < metas@.len() implies (#[trigger] metas@[a]).key@
                    != (#[trigger] metas@[b]).key@ by {
                    assert(!dup_at(variants@, b));
                    assert(norm_key(variants@[a].ident@) != norm_key(variants@[b].ident@));
                }
            }
            Ok(metas)
        },
    }
}

/// The normalized keys are pairwise distinct.
pub open spec fn keys_distinct(ms: Seq<AttributeMetadata>) -> bool {
    forall|a: int, b: int| 0 <= a < b < ms.len() ==> ms[a].key@ != ms[b].key@
}

pub open spec fn metas_props(ms: Seq<AttributeMetadata>) -> Seq<Seq<char>> {
    ms.map_values(|m: AttributeMetadata| property_spec(m.key@, m.value@))
}

fn build_properties_tail(fields: &Vec<AttributeMetadata>, i: usize) -> (r: String)
    requires
        i <= fields@.len(),
    ensures
        r@ == join(metas_props(fields@.skip(i as int)), seq![' ']),
    decreases fields@.len() - i,
{
    let ghost ws = metas_props(fields@.skip(i as int));
    if i >= fields.len() {
        proof {
            assert(ws.len() == 0);
        }
        return String::new();
    }
    let first = property(fields[i].key.as_str(), fields[i].value.as_str());
    proof {
        assert(ws[0] == property_spec(fields@[i as int].key@, fields@[i as int].value@));
    }
    if i + 1 == fields.len() {
        proof {
            assert(ws.len() == 1);
        }
        first
    } else {
        let rest = build_properties_tail(fields, i + 1);
        let mut out = first;
        out.append(" ");
        out.append(rest.as_str());
        proof {
            reveal_strlit(" ");
            assert(" "@ =~= seq![' ']);
            assert(ws.drop_first() =~= metas_props(fields@.skip(i + 1 as int)));
            assert(out@ == ws[0] + seq![' '] + join(ws.drop_first(), seq![' ']));
        }
        out
    }
}

/// The extracted properties as one `key="value"` block, space-separated,
/// in declaration order.
pub fn build_properties(fields: &Vec<AttributeMetadata>) -> (r: String)
    ensures
        r@ == join(metas_props(fields@), seq![' ']),
{
    let r = build_properties_tail(fields, 0);
    proof {
        assert(fields@.skip(0) =~= fields@);
    }
    r
}

/// The opening tag of the element a definition describes; the attribute
/// block is omitted when there are no extracted fields.
pub fn create_opening_tag(tag_name: &str, fields: &Vec<AttributeMetadata>) -> (r: String)
    ensures
        r@ == opening_tag_spec(tag_name@, join(metas_props(fields@), seq![' '])),
{
    let props = build_properties(fields);
    crate::html::create_opening_tag(tag_name, props.as_str())
}

/// The build-time description of a markup element: its tag name and the
/// ordered attribute metadata extracted from a type definition.
#[derive(Debug)]
pub struct ElementDefinition {
    pub tag_name: String,
    pub attrs: Vec<AttributeMetadata>,
}

/// The exact text the synthesized render operation emits: the opening tag
/// with the extracted attributes, an empty body, and the closing tag.
pub open spec fn element_render_spec(e: ElementDefinition) -> Seq<char> {
    tag_spec(e.tag_name@, join(metas_props(e.attrs@), seq![' ']), Seq::empty())
}

impl ElementDefinition {
    /// The markup node this definition realizes: the tag, the resolved
    /// attribute pairs in declaration order, and no children.  When the
    /// extracted keys are distinct and the tag is nonempty, the node is
    /// well-formed.
    pub fn to_node(&self) -> (n: MarkupNode)
        ensures
            n.tag@ == self.tag_name@,
            pairs_views(n.attrs@) == metas_props(self.attrs@),
            n.attrs@.len() == self.attrs@.len(),
            forall|k: int|
                0 <= k < self.attrs@.len() ==> (#[trigger] n.attrs@[k]).0@ == self.attrs@[k].key@
                    && n.attrs@[k].1@ == self.attrs@[k].value@,
            n.children@.len() == 0,
            !n.self_closing,
            self.tag_name@.len() > 0 && keys_distinct(self.attrs@) ==> crate::html::node_wf(n),
    {
        let mut pairs: Vec<(String, String)> = Vec::new();
        let mut i: usize = 0;
        while i < self.attrs.len()
            invariant
                0 <= i <= self.attrs@.len(),
                pairs@.len() == i,
                forall|k: int|
                    0 <= k < i ==> (#[trigger] pairs@[k]).0@ == self.attrs@[k].key@
                        && pairs@[k].1@ == self.attrs@[k].value@,
            decreases self.attrs@.len() - i,
        {
            pairs.push((self.attrs[i].key.clone(), self.attrs[i].value.clone()));
            i += 1;
        }
        let n = MarkupNode {
            tag: self.tag_name.clone(),
            attrs: pairs,
            children: Vec::new(),
            self_closing: false,
        };
        proof {
            assert(pairs_views(n.attrs@) =~= metas_props(self.attrs@));
        }
        n
    }

    /// Render one instance: realize the node and feed it to the canonical
    /// composition rule.  The operation is total; every failure was
    /// already reported at synthesis time.
    pub fn render(&self) -> (r: String)
        ensures
            r@ == element_render_spec(*self),
    {
        let node = self.to_node();
        let out = node.render();
        proof {
            assert(crate::html::render_children_from(node.children@, 0) =~= Seq::<char>::empty());
        }
        out
    }
}

/// Synthesize the render operation's definition for a type: require the
/// type-level tag-name annotation (a missing or empty one fails with
/// `Missing("tag_name")`), extract the per-variant attribute metadata, and
/// combine both.  Synthesis fails fast on any extraction error; there is
/// no partial render path.
pub fn synthesize(input: &TypeDef) -> (r: Result<ElementDefinition, MetadataError>)
    requires
        input.data matches TypeData::Enum(vs) ==> idents_classifiable(vs@),
    ensures
        (input.tag_name is None || input.tag_name->Some_0@.len() == 0) ==> (r matches Err(
            MetadataError::Missing(m),
        ) && m@ == "tag_name"@),
        input.tag_name is Some && input.tag_name->Some_0@.len() > 0 ==> {
            &&& (input.data matches TypeData::Struct(_) ==> (r matches Err(
                MetadataError::UnsupportedShape(m),
            ) && m@ == "struct"@))
            &&& (input.data is Union ==> (r matches Err(MetadataError::UnsupportedShape(m)) && m@
                == "union"@))
            &&& (input.data matches TypeData::Enum(vs) ==> {
                &&& (r is Ok) == extract_ok(vs@)
                &&& (r matches Ok(e) ==> e.tag_name@ == input.tag_name->Some_0@ && metas_match(
                    vs@,
                    e.attrs@,
                )
                    && keys_distinct(e.attrs@))
                &&& (forall|k: int|
                    first_error_missing(vs@, k) ==> (r matches Err(MetadataError::Missing(m))
                        && m@ == vs@[k].ident@))
                &&& (forall|k: int|
                    first_error_dup(vs@, k) ==> (r matches Err(MetadataError::DuplicateKey(m))
                        && m@ == norm_key(vs@[k].ident@)))
            })
        },
{
    let tag_name: String = match &input.tag_name {
        Option::None => {
            return Err(MetadataError::Missing(String::from_str("tag_name")));
        },
        Option::Some(t) => {
            if t.as_str().is_empty() {
                return Err(MetadataError::Missing(String::from_str("tag_name")));
            }
            t.clone()
        },
    };
    match extract_html_field_attrs(input) {
        Err(e) => Err(e),
        Ok(attrs) => Ok(ElementDefinition { tag_name, attrs }),
    }
}

} // verus!
