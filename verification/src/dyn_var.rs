//! A container for one value of any type.
//!
//! The type of the value is hidden when it is wrapped and checked when it is
//! recovered. The contracts speak of what a container holds: `holds(x)` says
//! that the value is `x`, `is_a::<T>()` that it is a `T`. They rest on one
//! notion of the logic, `erased(x)`, the value `x` taken as a value whose type
//! is hidden, and on what the standard library says of its boxes of `dyn Any`.
//! Beside that a container has the identity of the type it holds, a `TypeId`,
//! for callers that have an identity and no type to name.

use std::any::Any;
use std::any::TypeId;
use std::fmt::Debug;
use vstd::prelude::*;

verus! {

/// `std::any::TypeId`, the identity of a type: a value that is only compared.
#[verifier::external_type_specification]
#[verifier::external_body]
pub struct ExTypeId(TypeId);

/// A boxed value whose type is known only at run time, a
/// `Box<dyn Any + Send + Sync>`. The verifier cannot take the type of that
/// box in a field, so the box is kept behind this struct. What is known of a
/// box is what the two names below say: the value it holds, as a value whose
/// type is hidden, and the identity of the type of that value.
#[verifier::external_body]
pub struct RawVar {
    inner: Box<dyn Any + Send + Sync>,
}

/// The identity of the type of the value in a box, as `Any::type_id` reports it.
pub uninterp spec fn held_type(b: RawVar) -> TypeId;

/// What every value is: any value can be taken as one whose type is hidden.
/// The trait has no methods, and every type has it; a `dyn Erased` is how the
/// logic speaks of a value without naming its type.
pub trait Erased {

}

impl<T: 'static> Erased for T {

}

/// The value `x`, taken as a value whose type is hidden.
pub open spec fn erased<T: 'static>(x: T) -> Box<dyn Erased> {
    Box::new(x)
}

/// The value in a box, taken as a value whose type is hidden.
pub uninterp spec fn contents_of(b: RawVar) -> Box<dyn Erased>;

/// Whether the value in the box is `x`.
pub open spec fn boxed<T: 'static>(b: RawVar, x: T) -> bool {
    contents_of(b) == erased(x)
}

/// Whether the value in the box is `x`, and so no other value of its type.
pub open spec fn boxed_only<T: 'static>(b: RawVar, x: T) -> bool {
    &&& boxed(b, x)
    &&& forall|y: T| #[trigger] boxed(b, y) ==> y == x
}

/// Whether the value in the box is a `T`.
pub open spec fn boxed_is<T: 'static>(b: RawVar) -> bool {
    exists|x: T| #[trigger] boxed(b, x)
}

/// `Box::new`, with the box then taken as a `Box<dyn Any + Send + Sync>`: the
/// value moves into a box, which then holds it.
#[verifier::external_body]
fn erase<T: 'static + Send + Sync>(x: T) -> (r: RawVar)
    ensures
        contents_of(r) == erased(x),
{
    RawVar { inner: Box::new(x) }
}

/// `Any::is` on the boxed value: whether it is a `T`.
#[verifier::external_body]
fn holds_a<T: 'static>(b: &RawVar) -> (r: bool)
    ensures
        r == boxed_is::<T>(*b),
{
    b.inner.is::<T>()
}

/// `TypeId::of`: the identity of the type `T`. Nothing is claimed of it; what
/// is done with it is stated by the functions that take an identity.
#[verifier::external_body]
pub(crate) fn type_of<T: 'static>() -> (r: TypeId) {
    TypeId::of::<T>()
}

/// `Any::type_id` on the boxed value: the identity of the type that the box
/// holds, which is what `held_type` names.
#[verifier::external_body]
fn type_in(b: &RawVar) -> (r: TypeId)
    ensures
        r == held_type(*b),
{
    (*b.inner).type_id()
}

/// `==` on `TypeId`: two identities compare equal exactly when they are the
/// same identity.
#[verifier::external_body]
pub(crate) fn same_type(a: &TypeId, b: &TypeId) -> (r: bool)
    ensures
        r == (*a == *b),
{
    a == b
}

/// `Box<dyn Any + Send + Sync>::downcast`: where the value in the box is a
/// `T`, that value, out of the box; where it is not, the box as it was.
#[verifier::external_body]
fn downcast<T: 'static>(b: RawVar) -> (r: Result<T, RawVar>)
    ensures
        match r {
            Ok(v) => boxed_only(b, v),
            Err(e) => e == b && !boxed_is::<T>(b),
        },
{
    match b.inner.downcast::<T>() {
        Ok(v) => Ok(*v),
        Err(inner) => Err(RawVar { inner }),
    }
}

/// `Any::downcast_ref` on the boxed value: a reference to the value where it
/// is a `T`, and nothing where it is not.
#[verifier::external_body]
fn downcast_ref<T: 'static>(b: &RawVar) -> (r: Option<&T>)
    ensures
        match r {
            Some(v) => boxed_only(*b, *v),
            None => !boxed_is::<T>(*b),
        },
{
    b.inner.downcast_ref::<T>()
}

/// `Any::downcast_mut` on the boxed value: where the value is a `T`, a
/// reference to it, and what is written through the reference is what the box
/// holds afterwards, a value of the same type; where it is not, nothing, and
/// the box stays as it is.
#[verifier::external_body]
fn downcast_mut<T: 'static>(b: &mut RawVar) -> (r: Option<&mut T>)
    ensures
        held_type(*final(b)) == held_type(*old(b)),
        match r {
            Some(v) => boxed_only(*old(b), *v) && boxed_only(*final(b), *final(v)),
            None => !boxed_is::<T>(*old(b)) && *final(b) == *old(b),
        },
{
    b.inner.downcast_mut::<T>()
}

/// `format!` with `{:?}`: the text that the value shows through its `Debug`
/// impl. Nothing is claimed of the text.
#[verifier::external_body]
fn debug_text<T: Debug>(x: &T) -> (r: String) {
    format!("{:?}", x)
}

/// One owned value of any type, with what is needed to recover it: the box
/// that holds it, and the text it showed under `{:?}` when it was wrapped, if
/// its type can be shown that way.
pub struct DynVar {
    val: RawVar,
    dbg: Option<String>,
}

/// What stands in a trace for a value whose type cannot be shown.
pub open spec fn placeholder_text() -> Seq<char> {
    "{dyn DynDebug}"@
}

impl DynVar {
    /// The box that holds the value.
    pub closed spec fn raw(&self) -> RawVar {
        self.val
    }

    /// The text taken of the value when it was wrapped, if one was taken.
    pub closed spec fn snapshot(&self) -> Option<Seq<char>> {
        match self.dbg {
            None => None,
            Some(s) => Some(s@),
        }
    }

    /// The identity of the type of the value.
    pub open spec fn type_identity(&self) -> TypeId {
        held_type(self.raw())
    }

    /// Whether the value is `x`.
    pub open spec fn holds<T: 'static>(&self, x: T) -> bool {
        boxed(self.raw(), x)
    }

    /// Whether the value is `x`, and so no other value of its type.
    pub open spec fn holds_only<T: 'static>(&self, x: T) -> bool {
        boxed_only(self.raw(), x)
    }

    /// Whether the value is a `T`.
    pub open spec fn is_a<T: 'static>(&self) -> bool {
        boxed_is::<T>(self.raw())
    }

    /// The text that stands for the value in a trace.
    pub open spec fn snapshot_text(&self) -> Seq<char> {
        match self.snapshot() {
            None => placeholder_text(),
            Some(t) => t,
        }
    }

    /// Wraps a value of a type that cannot be shown: traces hold a placeholder for it.
    pub fn new<T: 'static + Send + Sync>(x: T) -> (r: DynVar)
        ensures
            r.holds(x),
            r.snapshot() is None,
    {
        DynVar { val: erase(x), dbg: None }
    }

    /// Wraps a value and keeps the text that it shows under `{:?}`.
    pub fn new_debug<T: 'static + Send + Sync + Debug>(x: T) -> (r: DynVar)
        ensures
            r.holds(x),
            r.snapshot() is Some,
    {
        let text = debug_text(&x);
        DynVar { val: erase(x), dbg: Some(text) }
    }

    /// Gives up the box; the text is dropped.
    pub fn to_raw(self) -> (r: RawVar)
        ensures
            r == self.raw(),
    {
        self.val
    }

    /// Takes a box as it is; no text is known of its value.
    pub fn from_raw(val: RawVar) -> (r: DynVar)
        ensures
            r.raw() == val,
            r.snapshot() is None,
    {
        DynVar { val, dbg: None }
    }

    /// The identity of the type of the value.
    pub fn type_id(&self) -> (r: TypeId)
        ensures
            r == self.type_identity(),
    {
        type_in(&self.val)
    }

    /// Whether the value is of the type with the identity `id`.
    pub fn is_type(&self, id: &TypeId) -> (r: bool)
        ensures
            r == (self.type_identity() == *id),
    {
        let held = type_in(&self.val);
        same_type(&held, id)
    }

    /// The text that stands for the value in a trace.
    pub fn debug_snapshot(&self) -> (r: String)
        ensures
            r@ == self.snapshot_text(),
    {
        match &self.dbg {
            Some(text) => text.clone(),
            None => String::from_str("{dyn DynDebug}"),
        }
    }

    /// Whether the value is a `T`.
    pub fn is<T: 'static>(&self) -> (r: bool)
        ensures
            r == self.is_a::<T>(),
    {
        holds_a::<T>(&self.val)
    }

    /// Recovers the value as a `T`: where it is one, the value comes out, and
    /// where it is not, the container comes back unchanged.
    pub fn try_to<T: 'static>(self) -> (r: Result<T, DynVar>)
        ensures
            match r {
                Ok(v) => self.holds_only(v),
                Err(d) => d == self && !self.is_a::<T>(),
            },
    {
        let DynVar { val, dbg } = self;
        match downcast::<T>(val) {
            Ok(v) => Ok(v),
            Err(val) => Err(DynVar { val, dbg }),
        }
    }

    /// A look at the value as a `T`: the value where it is one, nothing where
    /// it is not.
    pub fn as_ref<T: 'static>(&self) -> (r: Option<&T>)
        ensures
            match r {
                Some(v) => self.holds_only(*v),
                None => !self.is_a::<T>(),
            },
    {
        downcast_ref::<T>(&self.val)
    }

    /// The value as a `T`, to be changed in place: where it is one, the
    /// reference starts at the value, and what is written through it is what
    /// the container holds afterwards; where it is not, nothing is handed
    /// out and the container stays as it is. The container keeps the type it
    /// holds and the text taken when the value was wrapped.
    pub fn as_mut<T: 'static>(&mut self) -> (r: Option<&mut T>)
        ensures
            final(self).type_identity() == old(self).type_identity(),
            final(self).snapshot() == old(self).snapshot(),
            match r {
                Some(v) => old(self).holds_only(*v) && final(self).holds_only(*final(v)),
                None => !old(self).is_a::<T>() && *final(self) == *old(self),
            },
    {
        downcast_mut::<T>(&mut self.val)
    }

    /// A second container with a clone of the value and the same text, where
    /// the value is a `T`; nothing where it is not.
    pub fn clone_as<T: 'static + Send + Sync + Clone>(&self) -> (r: Option<DynVar>)
        ensures
            match r {
                Some(d) => d.snapshot() == self.snapshot() && exists|x: T, c: T|
                    #![trigger d.holds(c), self.holds_only(x)]
                    self.holds_only(x) && cloned(x, c) && d.holds(c),
                None => !self.is_a::<T>(),
            },
    {
        match downcast_ref::<T>(&self.val) {
            None => None,
            Some(v) => {
                let dbg = match &self.dbg {
                    None => None,
                    Some(t) => Some(t.clone()),
                };
                let copy = v.clone();
                let d = DynVar { val: erase(copy), dbg };
                assert(self.holds_only(*v) && cloned(*v, copy) && d.holds(copy));
                Some(d)
            },
        }
    }
}

} // verus!
