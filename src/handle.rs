//! Strong and weak handles to a shared value, each registered with the value's holder.
use vstd::prelude::*;
use vstd::rwlock::{RwLock, RwLockPredicate};
use std::sync::Arc;
use crate::lineage::{descends, index_of, Holder, LineageView};
use crate::tracing::{family_text, render_family, Origin, Site, Uid};

verus! {

/// What the lock of a holder guarantees of its contents: the holder is consistent, and while
/// it holds the value, that value is the one the holder was made for.
pub struct HolderPred<T> {
    pub value: T,
}

impl<T> RwLockPredicate<Holder<Arc<T>>> for HolderPred<T> {
    open spec fn inv(self, h: Holder<Arc<T>>) -> bool {
        &&& h.wf()
        &&& h.value_cell() matches Some(a) ==> *a == self.value
    }
}

/// The holder of a value, behind its lock.
pub type Shared<T> = RwLock<Holder<Arc<T>>, HolderPred<T>>;

/// A strong handle: keeps the value alive. Every handle is registered with the holder under
/// its id, together with its origin; release it with `Snarc::release` to unregister it. A
/// handle that is merely dropped stays registered, so its holder and the value are never freed.
pub struct Snarc<T> {
    inner: Arc<Shared<T>>,
    value: Arc<T>,
    id: Uid,
}

/// Another name for a strong handle.
pub type Strong<T> = Snarc<T>;

/// A weak handle: keeps the holder's records, not the value, alive. Release it with
/// `Weak::release` to unregister it; a weak handle that is merely dropped stays registered, so
/// its holder is never freed.
pub struct Weak<T> {
    inner: Arc<Shared<T>>,
    id: Uid,
}

/// The origins that a holder may list at one instant: sorted and unique ids, never shared by
/// a strong and a weak handle, with every chain's ids decreasing towards its creation.
pub open spec fn is_snapshot(strongs: Seq<Origin>, weaks: Seq<Origin>) -> bool {
    exists|v: LineageView| #[trigger] v.wf() && v.strongs == strongs && v.weaks == weaks
}

/// Relies on `Arc::ptr_eq`: it is true only when both point to the same allocation, which
/// then holds one value.
#[verifier::external_body]
fn same_allocation<A>(a: &Arc<A>, b: &Arc<A>) -> (r: bool)
    ensures
        r ==> *a == *b,
{
    Arc::ptr_eq(a, b)
}

/// Relies on `Arc::into_inner`: it returns the inner value when `a` was the last strong
/// reference, and of all the clones of one `Arc` handed to it, exactly one gets the value.
#[verifier::external_body]
fn into_sole<A>(a: Arc<A>) -> (r: Option<A>)
    ensures
        r matches Some(x) ==> x == *a,
{
    Arc::into_inner(a)
}

/// Frees the holder behind `inner` if this is the last reference to it.
fn reclaim_if_last<T>(inner: Arc<Shared<T>>) {
    if let Some(lock) = into_sole(inner) {
        let _ = lock.into_inner();
    }
}

impl<T> Snarc<T> {
    /// The lock that guards this handle's holder.
    pub closed spec fn holder(&self) -> Shared<T> {
        *self.inner
    }

    /// The value this handle points to.
    pub open spec fn target(&self) -> T {
        self.holder().pred().value
    }

    #[verifier::type_invariant]
    closed spec fn points_to_target(&self) -> bool {
        *self.value == self.target()
    }

    pub closed spec fn spec_id(&self) -> Uid {
        self.id
    }

    /// The id of this handle.
    #[verifier::when_used_as_spec(spec_id)]
    pub fn id(&self) -> (r: Uid)
        ensures
            r == self.spec_id(),
    {
        self.id
    }

    /// The value this handle points to.
    pub fn get(&self) -> (r: &T)
        ensures
            *r == self.target(),
    {
        proof {
            use_type_invariant(self);
        }
        &*self.value
    }

    /// Creates a value with one strong handle, id 0, made at `site`.
    pub fn new_at_site(data: T, site: Site) -> (r: Snarc<T>)
        ensures
            r.target() == data,
            r.spec_id() == 0,
    {
        let value = Arc::new(data);
        let holder = Holder::new(value.clone(), site);
        let lock = RwLock::new(holder, Ghost(HolderPred { value: data }));
        Snarc { inner: Arc::new(lock), value, id: 0 }
    }

    /// Creates a value with one strong handle, made at line `line` of `file`.
    pub fn new_at_line(data: T, file: &'static str, line: u32) -> (r: Snarc<T>)
        ensures
            r.target() == data,
            r.spec_id() == 0,
    {
        Snarc::new_at_site(data, Site::SourceFile { file, line: line as usize })
    }

    /// Creates a value with one strong handle, made at line `line` of `file`.
    pub fn new_from(data: T, file: &'static str, line: usize) -> (r: Snarc<T>)
        ensures
            r.target() == data,
            r.spec_id() == 0,
    {
        Snarc::new_at_site(data, Site::SourceFile { file, line })
    }

    /// Creates a value with one strong handle, made at an unknown site.
    pub fn new(data: T) -> (r: Snarc<T>)
        ensures
            r.target() == data,
            r.spec_id() == 0,
    {
        Snarc::new_at_site(data, Site::Unknown)
    }

    /// A new strong handle to the same value, cloned from this one at `site`. `None` only if
    /// the holder does not know this handle or has handed out every id.
    pub fn clone_at_site(&self, site: Site) -> (r: Option<Snarc<T>>)
        ensures
            r matches Some(s) ==> s.holder() == self.holder() && s.spec_id() > self.spec_id(),
    {
        proof {
            use_type_invariant(self);
        }
        let (mut h, guard) = self.inner.acquire_write();
        let ghost before = h@;
        let r = h.clone_strong_ref(self.id, site);
        guard.release_write(h);
        match r {
            Ok(id) => {
                proof {
                    assert(before.strongs[index_of(before.strongs, self.id)].id < before.next_id);
                }
                Some(Snarc { inner: self.inner.clone(), value: self.value.clone(), id })
            },
            Err(_) => None,
        }
    }

    /// A new strong handle cloned from this one at line `line` of `file`.
    pub fn clone_at_line(&self, file: &'static str, line: u32) -> (r: Option<Snarc<T>>)
        ensures
            r matches Some(s) ==> s.holder() == self.holder() && s.spec_id() > self.spec_id(),
    {
        self.clone_at_site(Site::SourceFile { file, line: line as usize })
    }

    /// A new weak handle downgraded from `this` at `site`. `None` only if the holder does not
    /// know this handle or has handed out every id.
    pub fn downgrade_at_site(this: &Self, site: Site) -> (r: Option<Weak<T>>)
        ensures
            r matches Some(w) ==> w.holder() == this.holder() && w.spec_id() > this.spec_id(),
    {
        let (mut h, guard) = this.inner.acquire_write();
        let ghost before = h@;
        let r = h.downgrade_ref(this.id, site);
        guard.release_write(h);
        match r {
            Ok(id) => {
                proof {
                    assert(before.strongs[index_of(before.strongs, this.id)].id < before.next_id);
                }
                Some(Weak { inner: this.inner.clone(), id })
            },
            Err(_) => None,
        }
    }

    /// A new weak handle downgraded from `this` at line `line` of `file`.
    pub fn downgrade_at_line(this: &Self, file: &'static str, line: u32) -> (r: Option<Weak<T>>)
        ensures
            r matches Some(w) ==> w.holder() == this.holder() && w.spec_id() > this.spec_id(),
    {
        Snarc::downgrade_at_site(this, Site::SourceFile { file, line: line as usize })
    }

    /// A new weak handle downgraded from `this` at an unknown site.
    pub fn downgrade(this: &Self) -> (r: Option<Weak<T>>)
        ensures
            r matches Some(w) ==> w.holder() == this.holder() && w.spec_id() > this.spec_id(),
    {
        Snarc::downgrade_at_site(this, Site::Unknown)
    }

    /// The number of live weak handles to this value, at the instant of the call.
    pub fn weak_count(this: &Snarc<T>) -> (r: usize) {
        let read = this.inner.acquire_read();
        let r = read.borrow().weak_count();
        read.release_read();
        r
    }

    /// The number of live strong handles to this value, at the instant of the call.
    pub fn strong_count(this: &Snarc<T>) -> (r: usize) {
        let read = this.inner.acquire_read();
        let r = read.borrow().strong_count();
        read.release_read();
        r
    }

    /// Whether both handles share one holder, and so one value.
    pub fn ptr_eq(this: &Snarc<T>, other: &Snarc<T>) -> (r: bool)
        ensures
            r ==> this.holder() == other.holder() && this.target() == other.target(),
    {
        same_allocation(&this.inner, &other.inner)
    }

    /// The origin chain of `this`, as its holder recorded it. `None` only if the holder does
    /// not know this handle.
    pub fn origin(this: &Snarc<T>) -> (r: Option<Origin>)
        ensures
            r matches Some(o) ==> o.id == this.spec_id() && descends(o),
    {
        let read = this.inner.acquire_read();
        let r = read.borrow().strong_origin(this.id);
        read.release_read();
        r
    }

    /// The origins of every live strong and of every live weak handle of this value, each
    /// sorted by id, taken at one instant.
    pub fn family(this: &Snarc<T>) -> (r: (Vec<Origin>, Vec<Origin>))
        ensures
            is_snapshot(r.0@, r.1@),
    {
        let read = this.inner.acquire_read();
        let h = read.borrow();
        let r = h.family();
        assert(h@.wf() && h@.strongs == r.0@ && h@.weaks == r.1@);
        read.release_read();
        r
    }

    /// Unregisters `this` from its holder. With the last strong handle the holder drops its
    /// reference to the value. The result tells whether no handle of either kind is left.
    pub fn release(this: Snarc<T>) -> (r: bool) {
        let Snarc { inner, value: _, id } = this;
        let (mut h, guard) = inner.acquire_write();
        let r = h.drop_strong_ref(id);
        guard.release_write(h);
        reclaim_if_last(inner);
        match r {
            Ok(empty) => empty,
            Err(_) => false,
        }
    }
}

impl<T> Weak<T> {
    /// The lock that guards this handle's holder.
    pub closed spec fn holder(&self) -> Shared<T> {
        *self.inner
    }

    /// The value this handle points to, while it is held.
    pub open spec fn target(&self) -> T {
        self.holder().pred().value
    }

    pub closed spec fn spec_id(&self) -> Uid {
        self.id
    }

    /// The id of this handle.
    #[verifier::when_used_as_spec(spec_id)]
    pub fn id(&self) -> (r: Uid)
        ensures
            r == self.spec_id(),
    {
        self.id
    }

    /// A strong handle upgraded from this one at `site`, if the value is still held at the
    /// instant the holder's lock is taken (and the holder knows this handle and has ids left).
    pub fn upgrade_at_site(&self, site: Site) -> (r: Option<Snarc<T>>)
        ensures
            r matches Some(s) ==> s.holder() == self.holder() && s.spec_id() > self.spec_id(),
    {
        let (mut h, guard) = self.inner.acquire_write();
        let ghost before = h@;
        let r = h.upgrade_ref(self.id, site);
        let value = match h.value() {
            Some(a) => Some(a.clone()),
            None => None,
        };
        guard.release_write(h);
        match (r, value) {
            (Ok(id), Some(value)) => {
                proof {
                    assert(before.weaks[index_of(before.weaks, self.id)].id < before.next_id);
                }
                Some(Snarc { inner: self.inner.clone(), value, id })
            },
            _ => None,
        }
    }

    /// A strong handle upgraded from this one at line `line` of `file`, if the value is still
    /// held.
    pub fn upgrade_at_line(&self, file: &'static str, line: u32) -> (r: Option<Snarc<T>>)
        ensures
            r matches Some(s) ==> s.holder() == self.holder() && s.spec_id() > self.spec_id(),
    {
        self.upgrade_at_site(Site::SourceFile { file, line: line as usize })
    }

    /// A strong handle upgraded from this one at an unknown site, if the value is still held.
    pub fn upgrade(&self) -> (r: Option<Snarc<T>>)
        ensures
            r matches Some(s) ==> s.holder() == self.holder() && s.spec_id() > self.spec_id(),
    {
        self.upgrade_at_site(Site::Unknown)
    }

    /// A new weak handle cloned from this one at `site`. `None` only if the holder does not
    /// know this handle or has handed out every id.
    pub fn clone_at_site(&self, site: Site) -> (r: Option<Weak<T>>)
        ensures
            r matches Some(w) ==> w.holder() == self.holder() && w.spec_id() > self.spec_id(),
    {
        let (mut h, guard) = self.inner.acquire_write();
        let ghost before = h@;
        let r = h.clone_weak_ref(self.id, site);
        guard.release_write(h);
        match r {
            Ok(id) => {
                proof {
                    assert(before.weaks[index_of(before.weaks, self.id)].id < before.next_id);
                }
                Some(Weak { inner: self.inner.clone(), id })
            },
            Err(_) => None,
        }
    }

    /// Unregisters this handle from its holder. The result tells whether no handle of either
    /// kind is left.
    pub fn release(self) -> (r: bool) {
        let Weak { inner, id } = self;
        let (mut h, guard) = inner.acquire_write();
        let r = h.drop_weak_ref(id);
        guard.release_write(h);
        reclaim_if_last(inner);
        match r {
            Ok(empty) => empty,
            Err(_) => false,
        }
    }
}

impl<T> std::ops::Deref for Snarc<T> {
    type Target = T;

    fn deref(&self) -> (r: &T)
        ensures
            *r == self.target(),
    {
        self.get()
    }
}

/// A listing of the family of one strong handle.
pub struct Dump<'a, T>(pub &'a Snarc<T>);

impl<'a, T> Dump<'a, T> {
    /// The header `Family associated with ID: <id>`, then a line `S| <chain>` for each live
    /// strong handle and a line `W| <chain>` for each live weak handle, sorted by id.
    pub fn render(&self) -> (r: String)
        ensures
            exists|s: Seq<Origin>, w: Seq<Origin>|
                is_snapshot(s, w) && r@ == #[trigger] family_text(self.0.spec_id(), s, w),
    {
        let (strongs, weaks) = Snarc::family(self.0);
        render_family(self.0.id(), &strongs, &weaks)
    }
}

} // verus!
