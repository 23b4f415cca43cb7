//! The `Dynamic` enum: a closed tagged union able to hold any of the
//! supported primitive and composite types. Floating-point payloads are held
//! as their IEEE-754 binary64 bit patterns, so that the union and its
//! conversion contracts stay within the verified fragment.

use vstd::prelude::*;

use crate::dynamic_type::DynamicType;
use crate::map::DynMap;

verus! {

/// A calendar timestamp from the `chrono` crate; carried through unchanged
/// and never interpreted by this library.
#[verifier::external_type_specification]
#[verifier::external_body]
pub struct ExNaiveDateTime(chrono::NaiveDateTime);

/// Relies on `chrono::NaiveDateTime`'s derived `Copy`/`Clone`: the clone is
/// the value itself.
#[verifier::external_body]
pub(crate) fn clone_timestamp(t: &chrono::NaiveDateTime) -> (r: chrono::NaiveDateTime)
    ensures
        r == *t,
{
    *t
}

/// The mathematical shape of a `Dynamic` value: text as a character
/// sequence, integers as unbounded integers, floats as their bit patterns,
/// arrays as sequences, and maps as key/value entry sequences.
pub enum DynView {
    Str(Seq<char>),
    Int(int),
    Bool(bool),
    Float(u64),
    Limits(u64, u64),
    Timestamp(chrono::NaiveDateTime),
    Array(Seq<DynView>),
    Mapping(Seq<(Seq<char>, DynView)>),
    Null,
}

impl DynView {
    /// The tag of the variant this view holds; the mapping is total and each
    /// variant has exactly one tag.
    pub open spec fn tag(self) -> DynamicType {
        match self {
            DynView::Str(_) => DynamicType::Str,
            DynView::Int(_) => DynamicType::Int,
            DynView::Bool(_) => DynamicType::Bool,
            DynView::Float(_) => DynamicType::Float,
            DynView::Limits(_, _) => DynamicType::Limits,
            DynView::Timestamp(_) => DynamicType::Timestamp,
            DynView::Array(_) => DynamicType::Array,
            DynView::Mapping(_) => DynamicType::Mapping,
            DynView::Null => DynamicType::Null,
        }
    }
}

/// A 64-bit floating-point value carried as its IEEE-754 binary64 bit
/// pattern (`f64::to_bits` form). The library never interprets the bits;
/// callers that hold a real float convert with `to_bits`/`from_bits`.
#[derive(Copy, Clone, PartialEq, Eq, Structural, Hash, Debug)]
pub struct FloatBits(pub u64);

/// The dynamic value union. Scalar payloads are stored inline; `Str`,
/// `Array` and `Mapping` own heap data. `Float` and `Limits` hold IEEE-754
/// binary64 bit patterns (`f64::to_bits` form).
#[derive(PartialEq, Debug)]
pub enum Dynamic {
    Str(String),
    Int(i64),
    Bool(bool),
    Float(u64),
    Limits((u64, u64)),
    Timestamp(chrono::NaiveDateTime),
    Array(Vec<Dynamic>),
    Mapping(DynMap),
    Null,
}

impl Dynamic {
    /// The deep mathematical view of this value, recursing into arrays and
    /// maps.
    pub open(crate) spec fn dyn_view(self) -> DynView
        decreases self,
    {
        match self {
            Dynamic::Str(s) => DynView::Str(s@),
            Dynamic::Int(i) => DynView::Int(i as int),
            Dynamic::Bool(b) => DynView::Bool(b),
            Dynamic::Float(bits) => DynView::Float(bits),
            Dynamic::Limits(p) => DynView::Limits(p.0, p.1),
            Dynamic::Timestamp(t) => DynView::Timestamp(t),
            Dynamic::Array(v) => DynView::Array(
                Seq::new(v@.len(), |i: int| if 0 <= i < v@.len() {
                    v@[i].dyn_view()
                } else {
                    DynView::Null
                }),
            ),
            Dynamic::Mapping(m) => DynView::Mapping(
                Seq::new(m.entries@.len(), |i: int| if 0 <= i < m.entries@.len() {
                    (m.entries@[i].0@, m.entries@[i].1.dyn_view())
                } else {
                    (Seq::<char>::empty(), DynView::Null)
                }),
            ),
            Dynamic::Null => DynView::Null,
        }
    }
}

impl View for Dynamic {
    type V = DynView;

    open spec fn view(&self) -> DynView {
        self.dyn_view()
    }
}

impl Dynamic {
    /// Pure, total introspection: the tag of the variant currently held.
    pub fn get_type(&self) -> (t: DynamicType)
        ensures
            t == self@.tag(),
    {
        match self {
            Dynamic::Str(_) => DynamicType::Str,
            Dynamic::Int(_) => DynamicType::Int,
            Dynamic::Bool(_) => DynamicType::Bool,
            Dynamic::Float(_) => DynamicType::Float,
            Dynamic::Limits(_) => DynamicType::Limits,
            Dynamic::Timestamp(_) => DynamicType::Timestamp,
            Dynamic::Array(_) => DynamicType::Array,
            Dynamic::Mapping(_) => DynamicType::Mapping,
            Dynamic::Null => DynamicType::Null,
        }
    }

    /// Builds the `Str` variant from a borrowed string slice, copying the
    /// text. The owned-string conversion lives in the cast trait.
    pub fn from_str_slice(value: &str) -> (r: Dynamic)
        ensures
            r@ == DynView::Str(value@),
    {
        Dynamic::Str(value.to_owned())
    }

    /// Builds the `Int` variant from an unsigned 64-bit token, reinterpreting
    /// the bits as a signed 64-bit integer, as the decode contract asks.
    pub fn from_u64_reinterpret(value: u64) -> (r: Dynamic)
        ensures
            r@ == DynView::Int(value as i64 as int),
    {
        Dynamic::Int(#[verifier::truncate] (value as i64))
    }
}

impl Default for Dynamic {
    /// A default-constructed `Dynamic` is the `Null` marker.
    fn default() -> (r: Self)
        ensures
            r == Dynamic::Null,
            r@ == DynView::Null,
    {
        Dynamic::Null
    }
}

/// Deep copy of a key/value entry vector; views of keys and values are
/// preserved entry by entry.
pub(crate) fn clone_entries(v: &Vec<(String, Dynamic)>) -> (r: Vec<(String, Dynamic)>)
    ensures
        r@.len() == v@.len(),
        forall|i: int| 0 <= i < v@.len() ==> (#[trigger] r@[i]).0@ == v@[i].0@ && r@[i].1@ == v@[i].1@,
    decreases *v,
{
    let mut out: Vec<(String, Dynamic)> = Vec::new();
    let mut i: usize = 0;
    while i < v.len()
        invariant
            i <= v@.len(),
            out@.len() == i,
            forall|j: int|
                0 <= j < i ==> (#[trigger] out@[j]).0@ == v@[j].0@ && out@[j].1@ == v@[j].1@,
        decreases v@.len() - i,
    {
        let key = v[i].0.clone();
        let val = v[i].1.clone();
        let ghost pre = out@;
        out.push((key, val));
        proof {
            assert forall|j: int|
                0 <= j < i + 1 implies (#[trigger] out@[j]).0@ == v@[j].0@
                && out@[j].1@ == v@[j].1@ by {
                if j == i as int {
                    assert(out@[j] == (key, val));
                } else {
                    assert(out@[j] == pre[j]);
                    assert(pre[j].0@ == v@[j].0@ && pre[j].1@ == v@[j].1@);
                }
            }
        }
        i = i + 1;
    }
    out
}

impl Clone for Dynamic {
    /// Deep structural copy: the clone has the same view as the original;
    /// for arrays and maps the copy is recursive.
    fn clone(&self) -> (r: Self)
        ensures
            r@ == self@,
        decreases *self,
    {
        match self {
            Dynamic::Str(s) => Dynamic::Str(s.clone()),
            Dynamic::Int(i) => Dynamic::Int(*i),
            Dynamic::Bool(b) => Dynamic::Bool(*b),
            Dynamic::Float(bits) => Dynamic::Float(*bits),
            Dynamic::Limits(p) => Dynamic::Limits(*p),
            Dynamic::Timestamp(t) => Dynamic::Timestamp(clone_timestamp(t)),
            Dynamic::Array(v) => {
                let mut out: Vec<Dynamic> = Vec::new();
                let mut i: usize = 0;
                while i < v.len()
                    invariant
                        *self == Dynamic::Array(*v),
                        i <= v@.len(),
                        out@.len() == i,
                        forall|j: int| 0 <= j < i ==> #[trigger] out@[j]@ == v@[j]@,
                    decreases v@.len() - i,
                {
                    proof {
                        assert(decreases_to!(*self => (*self)->Array_0));
                        assert(decreases_to!(*v => v@));
                        assert(decreases_to!(v@ => v@[i as int]));
                    }
                    let e = v[i].clone();
                    out.push(e);
                    i = i + 1;
                }
                let r = Dynamic::Array(out);
                proof {
                    let a = r@->Array_0;
                    let b = self@->Array_0;
                    assert forall|j: int| 0 <= j < v@.len() implies a[j] == b[j] by {
                        assert(out@[j]@ == v@[j]@);
                    }
                    assert(a =~= b);
                }
                r
            },
            Dynamic::Mapping(m) => {
                let entries = clone_entries(&m.entries);
                let r = Dynamic::Mapping(DynMap { entries });
                proof {
                    let a = r@->Mapping_0;
                    let b = self@->Mapping_0;
                    assert forall|j: int| 0 <= j < m.entries@.len() implies a[j] == b[j] by {
                        assert(entries@[j].0@ == m.entries@[j].0@);
                        assert(entries@[j].1@ == m.entries@[j].1@);
                    }
                    assert(a =~= b);
                }
                r
            },
            Dynamic::Null => Dynamic::Null,
        }
    }
}

/// Structural equality law: two dynamic values of different tags are never
/// equal, even when numerically related.
pub proof fn lemma_cross_tag_unequal(a: Dynamic, b: Dynamic)
    requires
        a@.tag() != b@.tag(),
    ensures
        a != b,
        a@ != b@,
{
}

} // verus!
