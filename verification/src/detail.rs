//! The detail projector: turns one selected item record into a structured
//! rendering — a title, the known fields in a fixed order, and a generic
//! fallback for every remaining field.
//!
//! The record format knows two price fields; this projector reads
//! `price_postapoc`, the one the browsed data sets actually carry, and the
//! generic fallback skips both so no price is ever shown twice.
//!
//! Known fields are shown only when string-valued: the record model keeps
//! no number payload, so a numeric volume, weight or price renders as
//! absent, exactly as a checked string read of the field would leave it.

use crate::catalog::Catalog;
use crate::get_name;
use crate::get_property;
use crate::spec_get;
use crate::spec_name;
use crate::spec_named;
use crate::spec_str_prop;
use crate::text::cap_of;
use crate::text::capitalize_first;
use crate::text::str_eq;
use crate::JsonValue;
use vstd::pervasive::unreached;
use vstd::prelude::*;
use vstd::string::StrSliceExecFns;

verus! {

/// The rendering of one generically displayed field: a plain text value or
/// a bulleted list of strings.
pub enum ExtraValue {
    Text(String),
    List(Vec<String>),
}

/// One generically displayed field: its label (first character
/// upper-cased) and its rendered value.
pub struct ExtraField {
    pub label: String,
    pub value: ExtraValue,
}

/// The mathematical image of an `ExtraValue`.
pub enum ExtraValueSpec {
    Text(Seq<char>),
    List(Seq<Seq<char>>),
}

/// The mathematical image of an `ExtraField`.
pub struct ExtraSpec {
    pub label: Seq<char>,
    pub value: ExtraValueSpec,
}

/// The character sequences of a sequence of strings.
pub open spec fn strs_view(v: Seq<String>) -> Seq<Seq<char>> {
    v.map_values(|s: String| s@)
}

impl View for ExtraValue {
    type V = ExtraValueSpec;

    open spec fn view(&self) -> ExtraValueSpec {
        match self {
            ExtraValue::Text(s) => ExtraValueSpec::Text(s@),
            ExtraValue::List(v) => ExtraValueSpec::List(strs_view(v@)),
        }
    }
}

impl View for ExtraField {
    type V = ExtraSpec;

    open spec fn view(&self) -> ExtraSpec {
        ExtraSpec { label: self.label@, value: self.value@ }
    }
}

/// The mathematical images of a sequence of extra fields.
pub open spec fn extras_view(v: Seq<ExtraField>) -> Seq<ExtraSpec> {
    v.map_values(|e: ExtraField| e@)
}

/// The structured rendering of one record: the title (display name), the
/// known fields when present with the expected kind, and the generic
/// rendering of every remaining field.
pub struct Detail {
    pub title: String,
    pub description: Option<String>,
    pub volume: Option<String>,
    pub weight: Option<String>,
    pub price: Option<String>,
    pub material: Option<String>,
    pub flags: Option<Vec<String>>,
    pub extra: Vec<ExtraField>,
}

/// The character sequence of an optional string.
pub open spec fn opt_str_view(o: Option<String>) -> Option<Seq<char>> {
    match o {
        Some(s) => Some(s@),
        None => None,
    }
}

/// The character sequences of an optional string list.
pub open spec fn opt_strs_view(o: Option<Vec<String>>) -> Option<Seq<Seq<char>>> {
    match o {
        Some(v) => Some(strs_view(v@)),
        None => None,
    }
}

/// The string a leaf value contributes to a bulleted list, if any.
pub open spec fn str_leaf(v: JsonValue) -> Option<Seq<char>> {
    match v {
        JsonValue::Str(s) => Some(s@),
        _ => None,
    }
}

/// `str_leaf` as a function value, shared by every statement about it.
pub open spec fn str_leaf_fn() -> spec_fn(JsonValue) -> Option<Seq<char>> {
    |v: JsonValue| str_leaf(v)
}

/// The lines one element of a generic array contributes: a string shows
/// itself, a nested array is flattened one level to its string elements,
/// and every other kind (numbers included) is suppressed.
pub open spec fn spec_item_leaves(item: JsonValue) -> Seq<Seq<char>> {
    match item {
        JsonValue::Str(s) => seq![s@],
        JsonValue::Arr(sub) => sub@.filter_map(str_leaf_fn()),
        _ => Seq::empty(),
    }
}

/// `spec_item_leaves` as a function value.
pub open spec fn item_leaves_fn() -> spec_fn(JsonValue) -> Seq<Seq<char>> {
    |it: JsonValue| spec_item_leaves(it)
}

/// The bulleted lines of a generic array-valued field.
pub open spec fn spec_array_leaves(items: Seq<JsonValue>) -> Seq<Seq<char>> {
    items.map_values(item_leaves_fn()).flatten()
}

/// The flags section: present only when the `flags` field is an array, and
/// then its string elements in order.
pub open spec fn spec_flags(rec: JsonValue) -> Option<Seq<Seq<char>>> {
    match spec_get(rec, "flags"@) {
        Some(JsonValue::Arr(items)) => Some(items@.filter_map(str_leaf_fn())),
        _ => None,
    }
}

/// A field whose name starts with the comment marker carries a human
/// annotation and is never displayed.
pub open spec fn is_comment_key(k: Seq<char>) -> bool {
    k.len() >= 2 && k[0] == '/' && k[1] == '/'
}

/// The fields with special-cased rendering, excluded from the generic
/// fallback. Both price field names are excluded.
pub open spec fn is_known_key(k: Seq<char>) -> bool {
    ||| k == "name"@
    ||| k == "description"@
    ||| k == "volume"@
    ||| k == "weight"@
    ||| k == "price"@
    ||| k == "price_postapoc"@
    ||| k == "material"@
    ||| k == "flags"@
}

/// What the generic fallback renders for one field: nothing for comment,
/// known, or unsupported-kind fields; a label/value pair for a string; a
/// label and bulleted lines for an array.
pub open spec fn spec_extra_of(k: Seq<char>, v: JsonValue) -> Option<ExtraSpec> {
    if is_comment_key(k) || is_known_key(k) {
        None
    } else {
        match v {
            JsonValue::Str(s) => Some(
                ExtraSpec { label: cap_of(k), value: ExtraValueSpec::Text(s@) },
            ),
            JsonValue::Arr(items) => Some(
                ExtraSpec { label: cap_of(k), value: ExtraValueSpec::List(
                    spec_array_leaves(items@),
                ) },
            ),
            _ => None,
        }
    }
}

/// `spec_extra_of` over a field pair, as a function value.
pub open spec fn extra_fn() -> spec_fn((String, JsonValue)) -> Option<ExtraSpec> {
    |kv: (String, JsonValue)| spec_extra_of(kv.0@, kv.1)
}

/// The generic fallback section of a record, field by field in record
/// order; empty when the record is not a mapping.
pub open spec fn spec_extras(rec: JsonValue) -> Seq<ExtraSpec> {
    match rec {
        JsonValue::Obj(fields) => fields@.filter_map(extra_fn()),
        _ => Seq::empty(),
    }
}

/// The string elements of an array, in order, every other kind skipped.
pub fn collect_str_leaves(items: &Vec<JsonValue>) -> (r: Vec<String>)
    ensures
        strs_view(r@) == items@.filter_map(str_leaf_fn()),
{
    let mut r: Vec<String> = Vec::new();
    let mut i: usize = 0;
    proof {
        assert(items@.take(0).filter_map(str_leaf_fn()) =~= Seq::<Seq<char>>::empty());
        assert(strs_view(r@) =~= Seq::<Seq<char>>::empty());
    }
    while i < items.len()
        invariant
            i <= items.len(),
            strs_view(r@) == items@.take(i as int).filter_map(str_leaf_fn()),
        decreases items.len() - i,
    {
        let ghost old_r = r@;
        match &items[i] {
            JsonValue::Str(s) => {
                r.push(s.clone());
                proof {
                    assert(strs_view(r@) =~= strs_view(old_r).push(s@));
                }
            },
            _ => {},
        }
        proof {
            items@.lemma_filter_map_take_succ(str_leaf_fn(), i as int);
            assert(strs_view(old_r).push(items@[i as int]->Str_0@) =~= strs_view(old_r) + seq![
                items@[i as int]->Str_0@,
            ]);
            assert(strs_view(old_r) + Seq::<Seq<char>>::empty() =~= strs_view(old_r));
        }
        i += 1;
    }
    proof {
        assert(items@.take(items@.len() as int) =~= items@);
    }
    r
}

/// The bulleted lines of one generic array value, executable form of
/// `spec_array_leaves`.
pub fn collect_array_leaves(items: &Vec<JsonValue>) -> (r: Vec<String>)
    ensures
        strs_view(r@) == spec_array_leaves(items@),
{
    let mut r: Vec<String> = Vec::new();
    let mut i: usize = 0;
    proof {
        assert(items@.take(0).map_values(item_leaves_fn()) =~= Seq::<Seq<Seq<char>>>::empty());
        assert(strs_view(r@) =~= Seq::<Seq<char>>::empty());
    }
    while i < items.len()
        invariant
            i <= items.len(),
            strs_view(r@) == spec_array_leaves(items@.take(i as int)),
        decreases items.len() - i,
    {
        let ghost old_r = r@;
        match &items[i] {
            JsonValue::Str(s) => {
                r.push(s.clone());
                proof {
                    assert(strs_view(r@) =~= strs_view(old_r).push(s@));
                    assert(strs_view(old_r).push(s@) =~= strs_view(old_r) + seq![s@]);
                }
            },
            JsonValue::Arr(sub) => {
                let mut leaves = collect_str_leaves(sub);
                let ghost leaves_seq = leaves@;
                r.append(&mut leaves);
                proof {
                    assert(strs_view(r@) =~= strs_view(old_r) + strs_view(leaves_seq));
                }
            },
            _ => {
                proof {
                    assert(strs_view(old_r) + Seq::<Seq<char>>::empty() =~= strs_view(old_r));
                }
            },
        }
        proof {
            let pre = items@.take(i as int).map_values(item_leaves_fn());
            assert(items@.take(i + 1).map_values(item_leaves_fn()) =~= pre.push(
                spec_item_leaves(items@[i as int]),
            ));
            Seq::lemma_flatten_push(pre, spec_item_leaves(items@[i as int]));
        }
        i += 1;
    }
    proof {
        assert(items@.take(items@.len() as int) =~= items@);
    }
    r
}

/// The generic fallback fields of a record, executable form of
/// `spec_extras` over the record's field list.
fn collect_extras(fields: &Vec<(String, JsonValue)>) -> (r: Vec<ExtraField>)
    ensures
        extras_view(r@) == fields@.filter_map(extra_fn()),
{
    let mut r: Vec<ExtraField> = Vec::new();
    let mut i: usize = 0;
    proof {
        assert(fields@.take(0).filter_map(extra_fn()) =~= Seq::<ExtraSpec>::empty());
        assert(extras_view(r@) =~= Seq::<ExtraSpec>::empty());
    }
    while i < fields.len()
        invariant
            i <= fields.len(),
            extras_view(r@) == fields@.take(i as int).filter_map(extra_fn()),
        decreases fields.len() - i,
    {
        let ghost old_r = r@;
        let key = &fields[i].0;
        let ks = key.as_str();
        let comment = ks.unicode_len() >= 2 && ks.get_char(0) == '/' && ks.get_char(1) == '/';
        let known = str_eq(ks, "name") || str_eq(ks, "description") || str_eq(ks, "volume")
            || str_eq(ks, "weight") || str_eq(ks, "price") || str_eq(ks, "price_postapoc")
            || str_eq(ks, "material") || str_eq(ks, "flags");
        if !comment && !known {
            match &fields[i].1 {
                JsonValue::Str(s) => {
                    let field = ExtraField {
                        label: capitalize_first(ks),
                        value: ExtraValue::Text(s.clone()),
                    };
                    r.push(field);
                    proof {
                        assert(extras_view(r@) =~= extras_view(old_r).push(r@.last()@));
                    }
                },
                JsonValue::Arr(items) => {
                    let field = ExtraField {
                        label: capitalize_first(ks),
                        value: ExtraValue::List(collect_array_leaves(items)),
                    };
                    r.push(field);
                    proof {
                        assert(extras_view(r@) =~= extras_view(old_r).push(r@.last()@));
                    }
                },
                _ => {},
            }
        }
        proof {
            fields@.lemma_filter_map_take_succ(extra_fn(), i as int);
            match extra_fn()(fields@[i as int]) {
                Some(e) => {
                    assert(extras_view(old_r).push(e) =~= extras_view(old_r) + seq![e]);
                },
                None => {
                    assert(extras_view(old_r) + Seq::<ExtraSpec>::empty() =~= extras_view(old_r));
                },
            }
        }
        i += 1;
    }
    proof {
        assert(fields@.take(fields@.len() as int) =~= fields@);
    }
    r
}

/// The full rendering contract: how a detail relates to the record it was
/// projected from.
pub open spec fn detail_matches(d: Detail, rec: JsonValue) -> bool {
    &&& spec_name(rec) == Some(d.title@)
    &&& opt_str_view(d.description) == spec_str_prop(rec, "description"@)
    &&& opt_str_view(d.volume) == spec_str_prop(rec, "volume"@)
    &&& opt_str_view(d.weight) == spec_str_prop(rec, "weight"@)
    &&& opt_str_view(d.price) == spec_str_prop(rec, "price_postapoc"@)
    &&& opt_str_view(d.material) == spec_str_prop(rec, "material"@)
    &&& opt_strs_view(d.flags) == spec_flags(rec)
    &&& extras_view(d.extra@) == spec_extras(rec)
}

/// Project a record for display. Total: a record missing any subset of
/// fields, or carrying fields of unexpected kinds, yields a detail with
/// those sections absent; only a record without a usable display name
/// yields `None`.
pub fn project_detail(rec: &JsonValue) -> (r: Option<Detail>)
    ensures
        (r is Some) == spec_named(*rec),
        r matches Some(d) ==> detail_matches(d, *rec),
{
    let title = match get_name(rec) {
        Some(s) => {
            if s.as_str().is_empty() {
                return None;
            }
            s
        },
        None => {
            return None;
        },
    };
    let description = get_property(rec, "description");
    let volume = get_property(rec, "volume");
    let weight = get_property(rec, "weight");
    let price = get_property(rec, "price_postapoc");
    let material = get_property(rec, "material");
    let flags = match rec.get("flags") {
        Some(v) => match v {
            JsonValue::Arr(items) => Some(collect_str_leaves(items)),
            _ => None,
        },
        None => None,
    };
    let extra = match rec {
        JsonValue::Obj(fields) => collect_extras(fields),
        _ => {
            let r: Vec<ExtraField> = Vec::new();
            proof {
                assert(extras_view(r@) =~= Seq::<ExtraSpec>::empty());
            }
            r
        },
    };
    Some(Detail { title, description, volume, weight, price, material, flags, extra })
}

impl Catalog {
    /// Project the record at one catalog position. The catalog invariant
    /// guarantees the projection resolves: every entry has a title.
    pub fn detail_at(&self, index: usize) -> (d: Detail)
        requires
            self.wf(),
            index < self@.len(),
        ensures
            detail_matches(d, self@[index as int]),
    {
        match project_detail(self.get(index)) {
            Some(d) => d,
            None => unreached(),
        }
    }
}

} // verus!
