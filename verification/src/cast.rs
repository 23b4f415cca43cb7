//! The bidirectional conversion contracts between native types and
//! `Dynamic`: a uniform trait pair (`to_dynamic`, `try_from_dynamic`)
//! implemented once per supported native type, with the round-trip, tag
//! fidelity and precise-mismatch laws proved for every implementation.

use vstd::prelude::*;

use crate::dynamic::{Dynamic, DynView, FloatBits};
use crate::dynamic_type::DynamicType;
use crate::error::TypeError;

verus! {

/// The uniform conversion pair between one native type and `Dynamic`.
///
/// Each supported native type is associated with exactly one tag.
/// `to_dynamic` never fails; `try_from_dynamic` succeeds exactly on the
/// values described by `can_cast` and otherwise returns the precise
/// `TypeError` described by `cast_err`. Narrowing casts on extraction use
/// the native truncating cast semantics; out-of-range values truncate
/// silently rather than failing.
pub trait DynamicCast: Sized {
    /// The one tag associated with this native type.
    spec fn tag() -> DynamicType;

    /// The view of the dynamic value that `to_dynamic` builds from `self`.
    spec fn view_of(self) -> DynView;

    /// Whether `self` is the native value that extraction recovers from a
    /// dynamic value of view `v`.
    spec fn recovers(self, v: DynView) -> bool;

    /// Whether `try_from_dynamic` succeeds on a dynamic value of view `v`.
    spec fn can_cast(v: DynView) -> bool;

    /// The error `try_from_dynamic` returns on a dynamic value of view `v`,
    /// meaningful when `!can_cast(v)`.
    spec fn cast_err(v: DynView) -> TypeError;

    /// Tag fidelity law: the dynamic value built from a native value always
    /// carries the one tag associated with the native type.
    proof fn lemma_tag_fidelity(self)
        ensures
            self.view_of().tag() == Self::tag(),
    ;

    /// Round-trip law: converting a native value to a dynamic value and
    /// back always succeeds and recovers the value.
    proof fn lemma_round_trip(self)
        ensures
            Self::can_cast(self.view_of()),
            self.recovers(self.view_of()),
    ;

    /// Precise-mismatch law: extraction from a dynamic value of a foreign
    /// tag fails with exactly the expected and found tags.
    proof fn lemma_tag_mismatch(v: DynView)
        requires
            v.tag() != Self::tag(),
        ensures
            !Self::can_cast(v),
            Self::cast_err(v) == (TypeError { expected_type: Self::tag(), found_type: v.tag() }),
    ;

    /// Non-failing conversion from the native value to a dynamic value.
    fn to_dynamic(self) -> (r: Dynamic)
        ensures
            r@ == self.view_of(),
    ;

    /// Fallible extraction of a native value from a dynamic value: succeeds
    /// exactly when `can_cast` holds of the view, and otherwise fails with
    /// exactly `cast_err` of the view.
    fn try_from_dynamic(d: Dynamic) -> (r: Result<Self, TypeError>)
        ensures
            Self::can_cast(d@) ==> (r matches Ok(v) && v.recovers(d@)),
            !Self::can_cast(d@) ==> (r matches Err(e) && e == Self::cast_err(d@)),
    ;
}

impl DynamicCast for i8 {
    open spec fn tag() -> DynamicType {
        DynamicType::Int
    }

    open spec fn view_of(self) -> DynView {
        DynView::Int(self as int)
    }

    open spec fn recovers(self, v: DynView) -> bool {
        v is Int && self == v->Int_0 as i64 as i8
    }

    open spec fn can_cast(v: DynView) -> bool {
        v is Int
    }

    open spec fn cast_err(v: DynView) -> TypeError {
        TypeError { expected_type: DynamicType::Int, found_type: v.tag() }
    }

    proof fn lemma_tag_fidelity(self) {
    }

    proof fn lemma_round_trip(self) {
    }

    proof fn lemma_tag_mismatch(v: DynView) {
    }

    fn to_dynamic(self) -> (r: Dynamic) {
        Dynamic::Int(self as i64)
    }

    fn try_from_dynamic(d: Dynamic) -> (r: Result<Self, TypeError>) {
        match d {
            Dynamic::Int(value) => Ok(#[verifier::truncate] (value as i8)),
            _ => Err(TypeError { expected_type: DynamicType::Int, found_type: d.get_type() }),
        }
    }
}

impl DynamicCast for i16 {
    open spec fn tag() -> DynamicType {
        DynamicType::Int
    }

    open spec fn view_of(self) -> DynView {
        DynView::Int(self as int)
    }

    open spec fn recovers(self, v: DynView) -> bool {
        v is Int && self == v->Int_0 as i64 as i16
    }

    open spec fn can_cast(v: DynView) -> bool {
        v is Int
    }

    open spec fn cast_err(v: DynView) -> TypeError {
        TypeError { expected_type: DynamicType::Int, found_type: v.tag() }
    }

    proof fn lemma_tag_fidelity(self) {
    }

    proof fn lemma_round_trip(self) {
    }

    proof fn lemma_tag_mismatch(v: DynView) {
    }

    fn to_dynamic(self) -> (r: Dynamic) {
        Dynamic::Int(self as i64)
    }

    fn try_from_dynamic(d: Dynamic) -> (r: Result<Self, TypeError>) {
        match d {
            Dynamic::Int(value) => Ok(#[verifier::truncate] (value as i16)),
            _ => Err(TypeError { expected_type: DynamicType::Int, found_type: d.get_type() }),
        }
    }
}

impl DynamicCast for i32 {
    open spec fn tag() -> DynamicType {
        DynamicType::Int
    }

    open spec fn view_of(self) -> DynView {
        DynView::Int(self as int)
    }

    open spec fn recovers(self, v: DynView) -> bool {
        v is Int && self == v->Int_0 as i64 as i32
    }

    open spec fn can_cast(v: DynView) -> bool {
        v is Int
    }

    open spec fn cast_err(v: DynView) -> TypeError {
        TypeError { expected_type: DynamicType::Int, found_type: v.tag() }
    }

    proof fn lemma_tag_fidelity(self) {
    }

    proof fn lemma_round_trip(self) {
    }

    proof fn lemma_tag_mismatch(v: DynView) {
    }

    fn to_dynamic(self) -> (r: Dynamic) {
        Dynamic::Int(self as i64)
    }

    fn try_from_dynamic(d: Dynamic) -> (r: Result<Self, TypeError>) {
        match d {
            Dynamic::Int(value) => Ok(#[verifier::truncate] (value as i32)),
            _ => Err(TypeError { expected_type: DynamicType::Int, found_type: d.get_type() }),
        }
    }
}

impl DynamicCast for i64 {
    open spec fn tag() -> DynamicType {
        DynamicType::Int
    }

    open spec fn view_of(self) -> DynView {
        DynView::Int(self as int)
    }

    open spec fn recovers(self, v: DynView) -> bool {
        v is Int && self == v->Int_0 as i64
    }

    open spec fn can_cast(v: DynView) -> bool {
        v is Int
    }

    open spec fn cast_err(v: DynView) -> TypeError {
        TypeError { expected_type: DynamicType::Int, found_type: v.tag() }
    }

    proof fn lemma_tag_fidelity(self) {
    }

    proof fn lemma_round_trip(self) {
    }

    proof fn lemma_tag_mismatch(v: DynView) {
    }

    fn to_dynamic(self) -> (r: Dynamic) {
        Dynamic::Int(self)
    }

    fn try_from_dynamic(d: Dynamic) -> (r: Result<Self, TypeError>) {
        match d {
            Dynamic::Int(value) => Ok(value),
            _ => Err(TypeError { expected_type: DynamicType::Int, found_type: d.get_type() }),
        }
    }
}

impl DynamicCast for u8 {
    open spec fn tag() -> DynamicType {
        DynamicType::Int
    }

    open spec fn view_of(self) -> DynView {
        DynView::Int(self as int)
    }

    open spec fn recovers(self, v: DynView) -> bool {
        v is Int && self == v->Int_0 as i64 as u8
    }

    open spec fn can_cast(v: DynView) -> bool {
        v is Int
    }

    open spec fn cast_err(v: DynView) -> TypeError {
        TypeError { expected_type: DynamicType::Int, found_type: v.tag() }
    }

    proof fn lemma_tag_fidelity(self) {
    }

    proof fn lemma_round_trip(self) {
    }

    proof fn lemma_tag_mismatch(v: DynView) {
    }

    fn to_dynamic(self) -> (r: Dynamic) {
        Dynamic::Int(self as i64)
    }

    fn try_from_dynamic(d: Dynamic) -> (r: Result<Self, TypeError>) {
        match d {
            Dynamic::Int(value) => Ok(#[verifier::truncate] (value as u8)),
            _ => Err(TypeError { expected_type: DynamicType::Int, found_type: d.get_type() }),
        }
    }
}

impl DynamicCast for u16 {
    open spec fn tag() -> DynamicType {
        DynamicType::Int
    }

    open spec fn view_of(self) -> DynView {
        DynView::Int(self as int)
    }

    open spec fn recovers(self, v: DynView) -> bool {
        v is Int && self == v->Int_0 as i64 as u16
    }

    open spec fn can_cast(v: DynView) -> bool {
        v is Int
    }

    open spec fn cast_err(v: DynView) -> TypeError {
        TypeError { expected_type: DynamicType::Int, found_type: v.tag() }
    }

    proof fn lemma_tag_fidelity(self) {
    }

    proof fn lemma_round_trip(self) {
    }

    proof fn lemma_tag_mismatch(v: DynView) {
    }

    fn to_dynamic(self) -> (r: Dynamic) {
        Dynamic::Int(self as i64)
    }

    fn try_from_dynamic(d: Dynamic) -> (r: Result<Self, TypeError>) {
        match d {
            Dynamic::Int(value) => Ok(#[verifier::truncate] (value as u16)),
            _ => Err(TypeError { expected_type: DynamicType::Int, found_type: d.get_type() }),
        }
    }
}

impl DynamicCast for u32 {
    open spec fn tag() -> DynamicType {
        DynamicType::Int
    }

    open spec fn view_of(self) -> DynView {
        DynView::Int(self as int)
    }

    open spec fn recovers(self, v: DynView) -> bool {
        v is Int && self == v->Int_0 as i64 as u32
    }

    open spec fn can_cast(v: DynView) -> bool {
        v is Int
    }

    open spec fn cast_err(v: DynView) -> TypeError {
        TypeError { expected_type: DynamicType::Int, found_type: v.tag() }
    }

    proof fn lemma_tag_fidelity(self) {
    }

    proof fn lemma_round_trip(self) {
    }

    proof fn lemma_tag_mismatch(v: DynView) {
    }

    fn to_dynamic(self) -> (r: Dynamic) {
        Dynamic::Int(self as i64)
    }

    fn try_from_dynamic(d: Dynamic) -> (r: Result<Self, TypeError>) {
        match d {
            Dynamic::Int(value) => Ok(#[verifier::truncate] (value as u32)),
            _ => Err(TypeError { expected_type: DynamicType::Int, found_type: d.get_type() }),
        }
    }
}

impl DynamicCast for bool {
    open spec fn tag() -> DynamicType {
        DynamicType::Bool
    }

    open spec fn view_of(self) -> DynView {
        DynView::Bool(self)
    }

    open spec fn recovers(self, v: DynView) -> bool {
        v is Bool && self == v->Bool_0
    }

    open spec fn can_cast(v: DynView) -> bool {
        v is Bool
    }

    open spec fn cast_err(v: DynView) -> TypeError {
        TypeError { expected_type: DynamicType::Bool, found_type: v.tag() }
    }

    proof fn lemma_tag_fidelity(self) {
    }

    proof fn lemma_round_trip(self) {
    }

    proof fn lemma_tag_mismatch(v: DynView) {
    }

    fn to_dynamic(self) -> (r: Dynamic) {
        Dynamic::Bool(self)
    }

    fn try_from_dynamic(d: Dynamic) -> (r: Result<Self, TypeError>) {
        match d {
            Dynamic::Bool(value) => Ok(value),
            _ => Err(TypeError { expected_type: DynamicType::Bool, found_type: d.get_type() }),
        }
    }
}

impl DynamicCast for String {
    open spec fn tag() -> DynamicType {
        DynamicType::Str
    }

    open spec fn view_of(self) -> DynView {
        DynView::Str(self@)
    }

    open spec fn recovers(self, v: DynView) -> bool {
        v is Str && self@ == v->Str_0
    }

    open spec fn can_cast(v: DynView) -> bool {
        v is Str
    }

    open spec fn cast_err(v: DynView) -> TypeError {
        TypeError { expected_type: DynamicType::Str, found_type: v.tag() }
    }

    proof fn lemma_tag_fidelity(self) {
    }

    proof fn lemma_round_trip(self) {
    }

    proof fn lemma_tag_mismatch(v: DynView) {
    }

    fn to_dynamic(self) -> (r: Dynamic) {
        Dynamic::Str(self)
    }

    fn try_from_dynamic(d: Dynamic) -> (r: Result<Self, TypeError>) {
        match d {
            Dynamic::Str(value) => Ok(value),
            _ => Err(TypeError { expected_type: DynamicType::Str, found_type: d.get_type() }),
        }
    }
}

impl DynamicCast for FloatBits {
    open spec fn tag() -> DynamicType {
        DynamicType::Float
    }

    open spec fn view_of(self) -> DynView {
        DynView::Float(self.0)
    }

    open spec fn recovers(self, v: DynView) -> bool {
        v is Float && self.0 == v->Float_0
    }

    open spec fn can_cast(v: DynView) -> bool {
        v is Float
    }

    open spec fn cast_err(v: DynView) -> TypeError {
        TypeError { expected_type: DynamicType::Float, found_type: v.tag() }
    }

    proof fn lemma_tag_fidelity(self) {
    }

    proof fn lemma_round_trip(self) {
    }

    proof fn lemma_tag_mismatch(v: DynView) {
    }

    fn to_dynamic(self) -> (r: Dynamic) {
        Dynamic::Float(self.0)
    }

    fn try_from_dynamic(d: Dynamic) -> (r: Result<Self, TypeError>) {
        match d {
            Dynamic::Float(bits) => Ok(FloatBits(bits)),
            _ => Err(TypeError { expected_type: DynamicType::Float, found_type: d.get_type() }),
        }
    }
}

impl DynamicCast for chrono::NaiveDateTime {
    open spec fn tag() -> DynamicType {
        DynamicType::Timestamp
    }

    open spec fn view_of(self) -> DynView {
        DynView::Timestamp(self)
    }

    open spec fn recovers(self, v: DynView) -> bool {
        v is Timestamp && self == v->Timestamp_0
    }

    open spec fn can_cast(v: DynView) -> bool {
        v is Timestamp
    }

    open spec fn cast_err(v: DynView) -> TypeError {
        TypeError { expected_type: DynamicType::Timestamp, found_type: v.tag() }
    }

    proof fn lemma_tag_fidelity(self) {
    }

    proof fn lemma_round_trip(self) {
    }

    proof fn lemma_tag_mismatch(v: DynView) {
    }

    fn to_dynamic(self) -> (r: Dynamic) {
        Dynamic::Timestamp(self)
    }

    fn try_from_dynamic(d: Dynamic) -> (r: Result<Self, TypeError>) {
        match d {
            Dynamic::Timestamp(value) => Ok(value),
            _ => Err(TypeError { expected_type: DynamicType::Timestamp, found_type: d.get_type() }),
        }
    }
}

/// The index of the first element of `s` on which a cast to `T` fails;
/// `s.len()` when every element casts.
pub open spec fn first_uncastable<T: DynamicCast>(s: Seq<DynView>) -> int
    decreases s.len(),
{
    if s.len() == 0 {
        0
    } else if !T::can_cast(s[0]) {
        0
    } else {
        1 + first_uncastable::<T>(s.drop_first())
    }
}

/// `first_uncastable` names the position of the first failing element.
pub proof fn lemma_first_uncastable<T: DynamicCast>(s: Seq<DynView>, k: int)
    requires
        0 <= k < s.len(),
        !T::can_cast(s[k]),
        forall|j: int| 0 <= j < k ==> T::can_cast(#[trigger] s[j]),
    ensures
        first_uncastable::<T>(s) == k,
    decreases s.len(),
{
    if k > 0 {
        assert(forall|j: int|
            0 <= j < k - 1 ==> #[trigger] s.drop_first()[j] == s[j + 1]);
        lemma_first_uncastable::<T>(s.drop_first(), k - 1);
    }
}

impl<T: DynamicCast> DynamicCast for Vec<T> {
    open spec fn tag() -> DynamicType {
        DynamicType::Array
    }

    open spec fn view_of(self) -> DynView {
        DynView::Array(
            Seq::new(self@.len(), |i: int| if 0 <= i < self@.len() {
                self@[i].view_of()
            } else {
                DynView::Null
            }),
        )
    }

    open spec fn recovers(self, v: DynView) -> bool {
        &&& v is Array
        &&& self@.len() == v->Array_0.len()
        &&& forall|i: int| 0 <= i < self@.len() ==> #[trigger] self@[i].recovers(v->Array_0[i])
    }

    open spec fn can_cast(v: DynView) -> bool {
        v is Array && forall|i: int|
            0 <= i < v->Array_0.len() ==> T::can_cast(#[trigger] v->Array_0[i])
    }

    open spec fn cast_err(v: DynView) -> TypeError {
        if !(v is Array) {
            TypeError { expected_type: DynamicType::Array, found_type: v.tag() }
        } else {
            T::cast_err(v->Array_0[first_uncastable::<T>(v->Array_0)])
        }
    }

    proof fn lemma_tag_fidelity(self) {
    }

    proof fn lemma_round_trip(self) {
        let w = self.view_of();
        assert forall|i: int| 0 <= i < w->Array_0.len() implies T::can_cast(
            #[trigger] w->Array_0[i],
        ) by {
            self@[i].lemma_round_trip();
        }
        assert forall|i: int| 0 <= i < self@.len() implies #[trigger] self@[i].recovers(
            w->Array_0[i],
        ) by {
            self@[i].lemma_round_trip();
        }
    }

    proof fn lemma_tag_mismatch(v: DynView) {
    }

    fn to_dynamic(self) -> (r: Dynamic) {
        let ghost orig: Seq<T> = self@;
        let mut rest = self;
        let mut out: Vec<Dynamic> = Vec::new();
        while rest.len() > 0
            invariant
                out@.len() + rest@.len() == orig.len(),
                forall|j: int| 0 <= j < out@.len() ==> #[trigger] out@[j]@ == orig[j].view_of(),
                forall|j: int| 0 <= j < rest@.len() ==> #[trigger] rest@[j] == orig[out@.len() + j],
            decreases rest@.len(),
        {
            let x = rest.remove(0);
            out.push(x.to_dynamic());
        }
        let r = Dynamic::Array(out);
        proof {
            let target = Seq::new(orig.len(), |i: int| if 0 <= i < orig.len() {
                orig[i].view_of()
            } else {
                DynView::Null
            });
            assert forall|i: int| 0 <= i < orig.len() implies r@->Array_0[i] == target[i] by {
                assert(out@[i]@ == orig[i].view_of());
            }
            assert(r@->Array_0 =~= target);
        }
        r
    }

    #[verifier::loop_isolation(false)]
    fn try_from_dynamic(d: Dynamic) -> (r: Result<Self, TypeError>) {
        let ghost dv = d@;
        match d {
            Dynamic::Array(items) => {
                let ghost s: Seq<DynView> = dv->Array_0;
                let mut rest = items;
                let mut out: Vec<T> = Vec::new();
                proof {
                    assert(forall|j: int|
                        0 <= j < rest@.len() ==> #[trigger] rest@[j]@ == s[j]);
                }
                while rest.len() > 0
                    invariant
                        dv is Array,
                        s == dv->Array_0,
                        out@.len() + rest@.len() == s.len(),
                        forall|j: int| 0 <= j < out@.len() ==> T::can_cast(#[trigger] s[j]),
                        forall|j: int|
                            0 <= j < out@.len() ==> #[trigger] out@[j].recovers(s[j]),
                        forall|j: int|
                            0 <= j < rest@.len() ==> #[trigger] rest@[j]@ == s[out@.len() + j],
                    decreases rest@.len(),
                {
                    let ghost k = out@.len() as int;
                    let x = rest.remove(0);
                    proof {
                        assert(x@ == s[k]);
                    }
                    match T::try_from_dynamic(x) {
                        Ok(t) => {
                            out.push(t);
                        },
                        Err(e) => {
                            proof {
                                assert(!T::can_cast(s[k]));
                                lemma_first_uncastable::<T>(s, k);
                                assert(!Self::can_cast(dv));
                                assert(Self::cast_err(dv) == e);
                            }
                            return Err(e);
                        },
                    }
                }
                proof {
                    assert(Self::can_cast(dv));
                }
                Ok(out)
            },
            _ => {
                proof {
                    assert(!(dv is Array));
                }
                Err(TypeError { expected_type: DynamicType::Array, found_type: d.get_type() })
            },
        }
    }
}

} // verus!
