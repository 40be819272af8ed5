//! The object store: structured values addressed by handles that are handed
//! out in increasing order and never reused.
use vstd::prelude::*;
use crate::value::{compare, val_lt, Val};

verus! {

/// A structured value held by the store.
pub enum HostObject {
    /// Entries kept sorted by key, keys unique.
    ValMap(Vec<(Val, Val)>),
    ValVec(Vec<Val>),
    Bytes(Vec<u8>),
}

/// The mathematical content of an object.
pub enum ObjectView {
    ValMap(Seq<(Val, Val)>),
    ValVec(Seq<Val>),
    Bytes(Seq<u8>),
}

impl View for HostObject {
    type V = ObjectView;

    open spec fn view(&self) -> ObjectView {
        match self {
            HostObject::ValMap(e) => ObjectView::ValMap(e@),
            HostObject::ValVec(v) => ObjectView::ValVec(v@),
            HostObject::Bytes(b) => ObjectView::Bytes(b@),
        }
    }
}

/// Why an object could not be reached or made.
#[derive(Clone, Copy, Debug, PartialEq, Eq, Structural)]
pub enum ObjError {
    /// No object has this handle.
    NoSuchObject,
    /// The handle names an object of another kind.
    WrongKind,
    /// An index or key is not present.
    NotFound,
    /// Every handle has been handed out.
    TooManyObjects,
}

/// Map entries strictly increasing by key.
pub open spec fn sorted_entries(e: Seq<(Val, Val)>) -> bool {
    forall|i: int, j: int| 0 <= i < j < e.len() ==> val_lt(#[trigger] e[i].0, #[trigger] e[j].0)
}

pub open spec fn has_key(e: Seq<(Val, Val)>, k: Val) -> bool {
    exists|i: int| 0 <= i < e.len() && #[trigger] e[i].0 == k
}

/// `after` is `before` with `k` bound to `v`: an existing key keeps its place
/// and only its value changes; a new key goes where the order puts it.
pub open spec fn is_put(before: Seq<(Val, Val)>, after: Seq<(Val, Val)>, k: Val, v: Val) -> bool {
    if has_key(before, k) {
        exists|i: int|
            0 <= i < before.len() && #[trigger] before[i].0 == k && after == before.update(i, (k, v))
    } else {
        sorted_entries(after) && exists|p: int|
            0 <= p <= before.len() && after == #[trigger] before.insert(p, (k, v))
    }
}

/// Every map of a store is sorted, given that the one new object is.
proof fn lemma_push_keeps_wf(s0: &ObjectStore, s1: &ObjectStore)
    requires
        s0.wf(),
        s1.len() == s0.len() + 1,
        forall|h: int| 0 <= h < s0.len() ==> s1.objects@[h] == s0.objects@[h],
        match s1.obj(s0.len() as int) {
            ObjectView::ValMap(e) => sorted_entries(e),
            _ => true,
        },
    ensures
        s1.wf(),
        s1.extends(s0),
{
    assert forall|h: int| 0 <= h < s1.len() implies match #[trigger] s1.obj(h) {
        ObjectView::ValMap(e) => sorted_entries(e),
        _ => true,
    } by {
        if h < s0.len() {
            assert(s1.obj(h) == s0.obj(h));
        }
    }
}

proof fn lemma_same_objects_wf(s0: &ObjectStore, s1: &ObjectStore)
    requires
        s0.wf(),
        s1.objects@ == s0.objects@,
    ensures
        s1.wf(),
        s1.extends(s0),
{
    assert forall|h: int| 0 <= h < s1.len() implies match #[trigger] s1.obj(h) {
        ObjectView::ValMap(e) => sorted_entries(e),
        _ => true,
    } by {
        assert(s1.obj(h) == s0.obj(h));
    }
}

/// The outcome of an operation on vector `v` of `s0` that leaves `s1`: a bad
/// handle is refused and nothing changes.
pub open spec fn vec_handle_refused(
    s0: &ObjectStore,
    s1: &ObjectStore,
    v: u32,
    r: Result<u32, ObjError>,
) -> bool {
    &&& v >= s0.len() ==> r == Err::<u32, ObjError>(ObjError::NoSuchObject)
    &&& v < s0.len() && !(s0.obj(v as int) is ValVec) ==> r == Err::<u32, ObjError>(
        ObjError::WrongKind,
    )
    &&& r is Err ==> s1.objects@ == s0.objects@
}

/// The outcome of an operation that makes a new vector `result` where `ok`
/// holds, and fails with `NotFound` where it does not.
pub open spec fn new_vec_outcome(
    s0: &ObjectStore,
    s1: &ObjectStore,
    r: Result<u32, ObjError>,
    ok: bool,
    result: Seq<Val>,
) -> bool {
    &&& !ok ==> r == Err::<u32, ObjError>(ObjError::NotFound)
    &&& ok && s0.len() >= u32::MAX ==> r == Err::<u32, ObjError>(ObjError::TooManyObjects)
    &&& ok && s0.len() < u32::MAX ==> r == Ok::<u32, ObjError>(s0.len() as u32) && s1.len()
        == s0.len() + 1 && s1.obj(s0.len() as int) == ObjectView::ValVec(result)
}

/// Appends `src[from..to]` to `out`.
fn copy_range<T: Copy>(out: &mut Vec<T>, src: &Vec<T>, from: usize, to: usize)
    requires
        from <= to <= src@.len(),
    ensures
        final(out)@ == old(out)@ + src@.subrange(from as int, to as int),
{
    let mut i: usize = from;
    while i < to
        invariant
            from <= i <= to,
            to <= src@.len(),
            out@ == old(out)@ + src@.subrange(from as int, i as int),
        decreases to - i,
    {
        out.push(src[i]);
        i = i + 1;
        assert(out@ =~= old(out)@ + src@.subrange(from as int, i as int));
    }
}

/// The store. The handle of an object is its position.
pub struct ObjectStore {
    pub objects: Vec<HostObject>,
}

impl ObjectStore {
    pub open spec fn len(&self) -> nat {
        self.objects@.len()
    }

    pub open spec fn obj(&self, h: int) -> ObjectView {
        self.objects@[h]@
    }

    /// Every map of the store keeps its entries sorted.
    pub open spec fn wf(&self) -> bool {
        forall|h: int|
            0 <= h < self.len() ==> match #[trigger] self.obj(h) {
                ObjectView::ValMap(e) => sorted_entries(e),
                _ => true,
            }
    }

    /// `self` is `earlier` with objects added after it; no object changed.
    pub open spec fn extends(&self, earlier: &ObjectStore) -> bool {
        &&& earlier.len() <= self.len()
        &&& forall|h: int| 0 <= h < earlier.len() ==> #[trigger] self.obj(h) == earlier.obj(h)
    }

    pub fn new() -> (r: ObjectStore)
        ensures
            r.len() == 0,
            r.wf(),
    {
        ObjectStore { objects: Vec::new() }
    }

    /// Adds an object; its handle is the number of objects before it.
    fn add_object(&mut self, o: HostObject) -> (r: Result<u32, ObjError>)
        ensures
            old(self).len() < u32::MAX ==> r == Ok::<u32, ObjError>(old(self).len() as u32)
                && final(self).objects@ == old(self).objects@.push(o),
            old(self).len() >= u32::MAX ==> r == Err::<u32, ObjError>(ObjError::TooManyObjects)
                && final(self).objects@ == old(self).objects@,
    {
        let n = self.objects.len();
        if n >= u32::MAX as usize {
            return Err(ObjError::TooManyObjects);
        }
        self.objects.push(o);
        Ok(n as u32)
    }

    /// Makes an empty map.
    pub fn map_new(&mut self) -> (r: Result<u32, ObjError>)
        requires
            old(self).wf(),
        ensures
            final(self).wf(),
            old(self).len() < u32::MAX ==> r == Ok::<u32, ObjError>(old(self).len() as u32)
                && final(self).len() == old(self).len() + 1 && final(self).extends(old(self))
                && final(self).obj(old(self).len() as int) == ObjectView::ValMap(Seq::empty()),
            old(self).len() >= u32::MAX ==> r == Err::<u32, ObjError>(ObjError::TooManyObjects)
                && final(self).objects@ == old(self).objects@,
    {
        let r = self.add_object(HostObject::ValMap(Vec::new()));
        proof {
            if r is Ok {
                lemma_push_keeps_wf(old(self), final(self));
            } else {
                lemma_same_objects_wf(old(self), final(self));
            }
        }
        r
    }

    /// Makes an empty vector.
    pub fn vec_new(&mut self) -> (r: Result<u32, ObjError>)
        requires
            old(self).wf(),
        ensures
            final(self).wf(),
            old(self).len() < u32::MAX ==> r == Ok::<u32, ObjError>(old(self).len() as u32)
                && final(self).len() == old(self).len() + 1 && final(self).extends(old(self))
                && final(self).obj(old(self).len() as int) == ObjectView::ValVec(Seq::empty()),
            old(self).len() >= u32::MAX ==> r == Err::<u32, ObjError>(ObjError::TooManyObjects)
                && final(self).objects@ == old(self).objects@,
    {
        let r = self.add_object(HostObject::ValVec(Vec::new()));
        proof {
            if r is Ok {
                lemma_push_keeps_wf(old(self), final(self));
            } else {
                lemma_same_objects_wf(old(self), final(self));
            }
        }
        r
    }
    /// Makes a byte string holding a copy of `bytes`.
    pub fn bytes_new_from_slice(&mut self, bytes: &[u8]) -> (r: Result<u32, ObjError>)
        requires
            old(self).wf(),
        ensures
            final(self).wf(),
            old(self).len() < u32::MAX ==> r == Ok::<u32, ObjError>(old(self).len() as u32)
                && final(self).len() == old(self).len() + 1 && final(self).extends(old(self))
                && final(self).obj(old(self).len() as int) == ObjectView::Bytes(bytes@),
            old(self).len() >= u32::MAX ==> r == Err::<u32, ObjError>(ObjError::TooManyObjects)
                && final(self).objects@ == old(self).objects@,
    {
        let mut b: Vec<u8> = Vec::new();
        let mut i: usize = 0;
        while i < bytes.len()
            invariant
                i <= bytes@.len(),
                b@ == bytes@.subrange(0, i as int),
            decreases bytes@.len() - i,
        {
            b.push(bytes[i]);
            i = i + 1;
            assert(b@ == bytes@.subrange(0, i as int));
        }
        assert(b@ == bytes@);
        let r = self.add_object(HostObject::Bytes(b));
        proof {
            if r is Ok {
                lemma_push_keeps_wf(old(self), final(self));
            } else {
                lemma_same_objects_wf(old(self), final(self));
            }
        }
        r
    }

    /// Makes a vector holding `items`.
    pub fn vec_from_vals(&mut self, items: Vec<Val>) -> (r: Result<u32, ObjError>)
        requires
            old(self).wf(),
        ensures
            final(self).wf(),
            old(self).len() < u32::MAX ==> r == Ok::<u32, ObjError>(old(self).len() as u32)
                && final(self).len() == old(self).len() + 1 && final(self).extends(old(self))
                && final(self).obj(old(self).len() as int) == ObjectView::ValVec(items@),
            old(self).len() >= u32::MAX ==> r == Err::<u32, ObjError>(ObjError::TooManyObjects)
                && final(self).objects@ == old(self).objects@,
    {
        let r = self.add_object(HostObject::ValVec(items));
        proof {
            if r is Ok {
                lemma_push_keeps_wf(old(self), final(self));
            } else {
                lemma_same_objects_wf(old(self), final(self));
            }
        }
        r
    }

    /// Makes a new vector: the vector `v` with `x` appended.
    pub fn vec_push_back(&mut self, v: u32, x: Val) -> (r: Result<u32, ObjError>)
        requires
            old(self).wf(),
        ensures
            final(self).wf(),
            final(self).extends(old(self)),
            v >= old(self).len() ==> r == Err::<u32, ObjError>(ObjError::NoSuchObject),
            v < old(self).len() && !(old(self).obj(v as int) is ValVec) ==> r == Err::<u32, ObjError>(
                ObjError::WrongKind,
            ),
            v < old(self).len() && old(self).obj(v as int) is ValVec && old(self).len() >= u32::MAX
                ==> r == Err::<u32, ObjError>(ObjError::TooManyObjects),
            r is Err ==> final(self).objects@ == old(self).objects@,
            v < old(self).len() && old(self).len() < u32::MAX ==> match old(self).obj(v as int) {
                ObjectView::ValVec(s) => r == Ok::<u32, ObjError>(old(self).len() as u32)
                    && final(self).len() == old(self).len() + 1
                    && final(self).obj(old(self).len() as int) == ObjectView::ValVec(s.push(x)),
                _ => true,
            },
    {
        if v as usize >= self.objects.len() {
            return Err(ObjError::NoSuchObject);
        }
        let items: &Vec<Val> = match &self.objects[v as usize] {
            HostObject::ValVec(items) => items,
            _ => {
                return Err(ObjError::WrongKind);
            },
        };
        if self.objects.len() >= u32::MAX as usize {
            return Err(ObjError::TooManyObjects);
        }
        let mut out: Vec<Val> = Vec::new();
        let mut i: usize = 0;
        while i < items.len()
            invariant
                i <= items@.len(),
                out@ == items@.subrange(0, i as int),
            decreases items@.len() - i,
        {
            out.push(items[i]);
            i = i + 1;
            assert(out@ == items@.subrange(0, i as int));
        }
        out.push(x);
        assert(out@ == items@.push(x));
        let r = self.add_object(HostObject::ValVec(out));
        proof {
            lemma_push_keeps_wf(old(self), final(self));
        }
        r
    }

    /// Makes a new vector: vector `v` with element `i` replaced by `x`.
    pub fn vec_put(&mut self, v: u32, i: usize, x: Val) -> (r: Result<u32, ObjError>)
        requires
            old(self).wf(),
        ensures
            final(self).wf(),
            final(self).extends(old(self)),
            vec_handle_refused(old(self), final(self), v, r),
            v < old(self).len() ==> match old(self).obj(v as int) {
                ObjectView::ValVec(s) => new_vec_outcome(old(self), final(self), r, i < s.len(), s.update(i as int, x)),
                _ => true,
            },
    {
        if v as usize >= self.objects.len() {
            return Err(ObjError::NoSuchObject);
        }
        let items: &Vec<Val> = match &self.objects[v as usize] {
            HostObject::ValVec(items) => items,
            _ => {
                return Err(ObjError::WrongKind);
            },
        };
        let n = items.len();
        if !(i < n) {
            return Err(ObjError::NotFound);
        }
        if self.objects.len() >= u32::MAX as usize {
            return Err(ObjError::TooManyObjects);
        }
        let mut out: Vec<Val> = Vec::new();
        copy_range(&mut out, items, 0, i);
        out.push(x);
        copy_range(&mut out, items, i + 1, n);
        assert(out@ =~= items@.update(i as int, x));
        self.vec_from_vals(out)
    }

    /// Makes a new vector: vector `v` with `x` inserted before position `i`.
    pub fn vec_insert(&mut self, v: u32, i: usize, x: Val) -> (r: Result<u32, ObjError>)
        requires
            old(self).wf(),
        ensures
            final(self).wf(),
            final(self).extends(old(self)),
            vec_handle_refused(old(self), final(self), v, r),
            v < old(self).len() ==> match old(self).obj(v as int) {
                ObjectView::ValVec(s) => new_vec_outcome(old(self), final(self), r, i <= s.len(), s.insert(i as int, x)),
                _ => true,
            },
    {
        if v as usize >= self.objects.len() {
            return Err(ObjError::NoSuchObject);
        }
        let items: &Vec<Val> = match &self.objects[v as usize] {
            HostObject::ValVec(items) => items,
            _ => {
                return Err(ObjError::WrongKind);
            },
        };
        let n = items.len();
        if !(i <= n) {
            return Err(ObjError::NotFound);
        }
        if self.objects.len() >= u32::MAX as usize {
            return Err(ObjError::TooManyObjects);
        }
        let mut out: Vec<Val> = Vec::new();
        copy_range(&mut out, items, 0, i);
        out.push(x);
        copy_range(&mut out, items, i, n);
        assert(out@ =~= items@.insert(i as int, x));
        self.vec_from_vals(out)
    }

    /// Makes a new vector: vector `v` without element `i`.
    pub fn vec_del(&mut self, v: u32, i: usize) -> (r: Result<u32, ObjError>)
        requires
            old(self).wf(),
        ensures
            final(self).wf(),
            final(self).extends(old(self)),
            vec_handle_refused(old(self), final(self), v, r),
            v < old(self).len() ==> match old(self).obj(v as int) {
                ObjectView::ValVec(s) => new_vec_outcome(old(self), final(self), r, i < s.len(), s.remove(i as int)),
                _ => true,
            },
    {
        if v as usize >= self.objects.len() {
            return Err(ObjError::NoSuchObject);
        }
        let items: &Vec<Val> = match &self.objects[v as usize] {
            HostObject::ValVec(items) => items,
            _ => {
                return Err(ObjError::WrongKind);
            },
        };
        let n = items.len();
        if !(i < n) {
            return Err(ObjError::NotFound);
        }
        if self.objects.len() >= u32::MAX as usize {
            return Err(ObjError::TooManyObjects);
        }
        let mut out: Vec<Val> = Vec::new();
        copy_range(&mut out, items, 0, i);
        copy_range(&mut out, items, i + 1, n);
        assert(out@ =~= items@.remove(i as int));
        self.vec_from_vals(out)
    }

    /// Makes a new vector: the first `i` elements of vector `v`.
    pub fn vec_take(&mut self, v: u32, i: usize) -> (r: Result<u32, ObjError>)
        requires
            old(self).wf(),
        ensures
            final(self).wf(),
            final(self).extends(old(self)),
            vec_handle_refused(old(self), final(self), v, r),
            v < old(self).len() ==> match old(self).obj(v as int) {
                ObjectView::ValVec(s) => new_vec_outcome(old(self), final(self), r, i <= s.len(), s.subrange(0, i as int)),
                _ => true,
            },
    {
        if v as usize >= self.objects.len() {
            return Err(ObjError::NoSuchObject);
        }
        let items: &Vec<Val> = match &self.objects[v as usize] {
            HostObject::ValVec(items) => items,
            _ => {
                return Err(ObjError::WrongKind);
            },
        };
        let n = items.len();
        if !(i <= n) {
            return Err(ObjError::NotFound);
        }
        if self.objects.len() >= u32::MAX as usize {
            return Err(ObjError::TooManyObjects);
        }
        let mut out: Vec<Val> = Vec::new();
        copy_range(&mut out, items, 0, i);
        assert(out@ =~= items@.subrange(0, i as int));
        self.vec_from_vals(out)
    }

    /// Makes a new vector: vector `v` without its first `i` elements.
    pub fn vec_drop(&mut self, v: u32, i: usize) -> (r: Result<u32, ObjError>)
        requires
            old(self).wf(),
        ensures
            final(self).wf(),
            final(self).extends(old(self)),
            vec_handle_refused(old(self), final(self), v, r),
            v < old(self).len() ==> match old(self).obj(v as int) {
                ObjectView::ValVec(s) => new_vec_outcome(old(self), final(self), r, i <= s.len(), s.subrange(i as int, s.len() as int)),
                _ => true,
            },
    {
        if v as usize >= self.objects.len() {
            return Err(ObjError::NoSuchObject);
        }
        let items: &Vec<Val> = match &self.objects[v as usize] {
            HostObject::ValVec(items) => items,
            _ => {
                return Err(ObjError::WrongKind);
            },
        };
        let n = items.len();
        if !(i <= n) {
            return Err(ObjError::NotFound);
        }
        if self.objects.len() >= u32::MAX as usize {
            return Err(ObjError::TooManyObjects);
        }
        let mut out: Vec<Val> = Vec::new();
        copy_range(&mut out, items, i, n);
        assert(out@ =~= items@.subrange(i as int, n as int));
        self.vec_from_vals(out)
    }

    /// Makes a new vector: the elements of vector `v1` followed by those of
    /// vector `v2`.
    pub fn vec_append(&mut self, v1: u32, v2: u32) -> (r: Result<u32, ObjError>)
        requires
            old(self).wf(),
        ensures
            final(self).wf(),
            final(self).extends(old(self)),
            vec_handle_refused(old(self), final(self), v1, r),
            v1 < old(self).len() && old(self).obj(v1 as int) is ValVec ==> vec_handle_refused(
                old(self),
                final(self),
                v2,
                r,
            ),
            v1 < old(self).len() && v2 < old(self).len() ==> match (
                old(self).obj(v1 as int),
                old(self).obj(v2 as int),
            ) {
                (ObjectView::ValVec(a), ObjectView::ValVec(b)) => new_vec_outcome(
                    old(self),
                    final(self),
                    r,
                    true,
                    a + b,
                ),
                _ => true,
            },
    {
        if v1 as usize >= self.objects.len() {
            return Err(ObjError::NoSuchObject);
        }
        let a: &Vec<Val> = match &self.objects[v1 as usize] {
            HostObject::ValVec(items) => items,
            _ => {
                return Err(ObjError::WrongKind);
            },
        };
        if v2 as usize >= self.objects.len() {
            return Err(ObjError::NoSuchObject);
        }
        let b: &Vec<Val> = match &self.objects[v2 as usize] {
            HostObject::ValVec(items) => items,
            _ => {
                return Err(ObjError::WrongKind);
            },
        };
        if self.objects.len() >= u32::MAX as usize {
            return Err(ObjError::TooManyObjects);
        }
        let mut out: Vec<Val> = Vec::new();
        copy_range(&mut out, a, 0, a.len());
        copy_range(&mut out, b, 0, b.len());
        assert(a@.subrange(0, a@.len() as int) =~= a@);
        assert(b@.subrange(0, b@.len() as int) =~= b@);
        assert(out@ =~= a@ + b@);
        self.vec_from_vals(out)
    }

    /// Number of entries of map `m`.
    pub fn map_len(&self, m: u32) -> (r: Result<usize, ObjError>)
        ensures
            m >= self.len() ==> r == Err::<usize, ObjError>(ObjError::NoSuchObject),
            m < self.len() ==> match self.obj(m as int) {
                ObjectView::ValMap(e) => r matches Ok(n) && n == e.len(),
                _ => r == Err::<usize, ObjError>(ObjError::WrongKind),
            },
    {
        if m as usize >= self.objects.len() {
            return Err(ObjError::NoSuchObject);
        }
        match &self.objects[m as usize] {
            HostObject::ValMap(e) => Ok(e.len()),
            _ => Err(ObjError::WrongKind),
        }
    }

    /// Number of elements of vector `v`.
    pub fn vec_len(&self, v: u32) -> (r: Result<usize, ObjError>)
        ensures
            v >= self.len() ==> r == Err::<usize, ObjError>(ObjError::NoSuchObject),
            v < self.len() ==> match self.obj(v as int) {
                ObjectView::ValVec(s) => r matches Ok(n) && n == s.len(),
                _ => r == Err::<usize, ObjError>(ObjError::WrongKind),
            },
    {
        if v as usize >= self.objects.len() {
            return Err(ObjError::NoSuchObject);
        }
        match &self.objects[v as usize] {
            HostObject::ValVec(s) => Ok(s.len()),
            _ => Err(ObjError::WrongKind),
        }
    }

    /// Element `i` of vector `v`.
    pub fn vec_get(&self, v: u32, i: usize) -> (r: Result<Val, ObjError>)
        ensures
            v >= self.len() ==> r == Err::<Val, ObjError>(ObjError::NoSuchObject),
            v < self.len() ==> match self.obj(v as int) {
                ObjectView::ValVec(s) => if i < s.len() {
                    r == Ok::<Val, ObjError>(s[i as int])
                } else {
                    r == Err::<Val, ObjError>(ObjError::NotFound)
                },
                _ => r == Err::<Val, ObjError>(ObjError::WrongKind),
            },
    {
        if v as usize >= self.objects.len() {
            return Err(ObjError::NoSuchObject);
        }
        match &self.objects[v as usize] {
            HostObject::ValVec(s) => if i < s.len() {
                Ok(s[i])
            } else {
                Err(ObjError::NotFound)
            },
            _ => Err(ObjError::WrongKind),
        }
    }
    /// Makes a new map: map `m` with key `k` bound to `v`.
    pub fn map_put(&mut self, m: u32, k: Val, v: Val) -> (r: Result<u32, ObjError>)
        requires
            old(self).wf(),
        ensures
            final(self).wf(),
            final(self).extends(old(self)),
            m >= old(self).len() ==> r == Err::<u32, ObjError>(ObjError::NoSuchObject),
            m < old(self).len() && !(old(self).obj(m as int) is ValMap) ==> r == Err::<u32, ObjError>(
                ObjError::WrongKind,
            ),
            m < old(self).len() && old(self).obj(m as int) is ValMap && old(self).len() >= u32::MAX
                ==> r == Err::<u32, ObjError>(ObjError::TooManyObjects),
            r is Err ==> final(self).objects@ == old(self).objects@,
            m < old(self).len() && old(self).len() < u32::MAX ==> match old(self).obj(m as int) {
                ObjectView::ValMap(e) => r == Ok::<u32, ObjError>(old(self).len() as u32)
                    && final(self).len() == old(self).len() + 1 && match final(self).obj(
                    old(self).len() as int,
                ) {
                    ObjectView::ValMap(e2) => is_put(e, e2, k, v),
                    _ => false,
                },
                _ => true,
            },
    {
        if m as usize >= self.objects.len() {
            return Err(ObjError::NoSuchObject);
        }
        let entries: &Vec<(Val, Val)> = match &self.objects[m as usize] {
            HostObject::ValMap(e) => e,
            _ => {
                return Err(ObjError::WrongKind);
            },
        };
        if self.objects.len() >= u32::MAX as usize {
            return Err(ObjError::TooManyObjects);
        }
        proof {
            assert(old(self).obj(m as int) == ObjectView::ValMap(entries@));
        }
        let n = entries.len();
        let mut p: usize = 0;
        while p < n && compare(entries[p].0, k) == -1
            invariant
                n == entries@.len(),
                p <= n,
                forall|j: int| 0 <= j < p ==> val_lt(#[trigger] entries@[j].0, k),
            decreases n - p,
        {
            p = p + 1;
        }
        let found = p < n && entries[p].0 == k;
        let mut out: Vec<(Val, Val)> = Vec::new();
        let mut i: usize = 0;
        while i < p
            invariant
                p <= n,
                n == entries@.len(),
                i <= p,
                out@ == entries@.subrange(0, i as int),
            decreases p - i,
        {
            out.push(entries[i]);
            i = i + 1;
            assert(out@ == entries@.subrange(0, i as int));
        }
        out.push((k, v));
        let start: usize = if found {
            p + 1
        } else {
            p
        };
        let ghost mid = out@;
        let mut i: usize = start;
        while i < n
            invariant
                start <= n,
                n == entries@.len(),
                start <= i <= n,
                out@ == mid + entries@.subrange(start as int, i as int),
            decreases n - i,
        {
            out.push(entries[i]);
            i = i + 1;
            assert(out@ == mid + entries@.subrange(start as int, i as int));
        }
        proof {
            let e = entries@;
            assert(sorted_entries(e));
            if found {
                assert(out@ =~= e.update(p as int, (k, v)));
                assert(has_key(e, k));
            } else {
                assert(out@ =~= e.insert(p as int, (k, v)));
                assert forall|j: int| p <= j < n implies val_lt(k, #[trigger] e[j].0) by {
                    if j > p {
                        assert(val_lt(e[p as int].0, e[j].0));
                    }
                }
                assert(!has_key(e, k)) by {
                    if has_key(e, k) {
                        let w = choose|w: int| 0 <= w < e.len() && #[trigger] e[w].0 == k;
                        if w < p {
                            assert(val_lt(e[w].0, k));
                        } else {
                            assert(val_lt(k, e[w].0));
                        }
                    }
                }
                let o = out@;
                assert forall|a: int, b: int| 0 <= a < b < o.len() implies val_lt(
                    #[trigger] o[a].0,
                    #[trigger] o[b].0,
                ) by {
                    if a < p && b < p {
                        assert(o[a] == e[a] && o[b] == e[b]);
                    } else if a < p && b == p {
                        assert(o[a] == e[a]);
                    } else if a < p {
                        assert(o[a] == e[a] && o[b] == e[b - 1]);
                        assert(val_lt(e[a].0, e[b - 1].0));
                    } else if a == p {
                        assert(o[b] == e[b - 1]);
                    } else {
                        assert(o[a] == e[a - 1] && o[b] == e[b - 1]);
                    }
                }
            }
        }
        let r = self.add_object(HostObject::ValMap(out));
        proof {
            lemma_push_keeps_wf(old(self), final(self));
        }
        r
    }

    /// Whether map `m` binds `k`.
    pub fn map_has(&self, m: u32, k: Val) -> (r: Result<bool, ObjError>)
        ensures
            m >= self.len() ==> r == Err::<bool, ObjError>(ObjError::NoSuchObject),
            m < self.len() ==> match self.obj(m as int) {
                ObjectView::ValMap(e) => r == Ok::<bool, ObjError>(has_key(e, k)),
                _ => r == Err::<bool, ObjError>(ObjError::WrongKind),
            },
    {
        if m as usize >= self.objects.len() {
            return Err(ObjError::NoSuchObject);
        }
        match &self.objects[m as usize] {
            HostObject::ValMap(e) => {
                let mut i: usize = 0;
                while i < e.len()
                    invariant
                        i <= e@.len(),
                        m < self.len(),
                        self.obj(m as int) == ObjectView::ValMap(e@),
                        forall|j: int| 0 <= j < i ==> #[trigger] e@[j].0 != k,
                    decreases e@.len() - i,
                {
                    if e[i].0 == k {
                        assert(e@[i as int].0 == k);
                        return Ok(true);
                    }
                    i = i + 1;
                }
                Ok(false)
            },
            _ => Err(ObjError::WrongKind),
        }
    }

    /// Makes a new map: map `m` without key `k`.
    pub fn map_del(&mut self, m: u32, k: Val) -> (r: Result<u32, ObjError>)
        requires
            old(self).wf(),
        ensures
            final(self).wf(),
            final(self).extends(old(self)),
            r is Err ==> final(self).objects@ == old(self).objects@,
            m >= old(self).len() ==> r == Err::<u32, ObjError>(ObjError::NoSuchObject),
            m < old(self).len() ==> match old(self).obj(m as int) {
                ObjectView::ValMap(e) => {
                    &&& !has_key(e, k) ==> r == Err::<u32, ObjError>(ObjError::NotFound)
                    &&& has_key(e, k) && old(self).len() >= u32::MAX ==> r == Err::<u32, ObjError>(
                        ObjError::TooManyObjects,
                    )
                    &&& has_key(e, k) && old(self).len() < u32::MAX ==> r == Ok::<u32, ObjError>(
                        old(self).len() as u32,
                    ) && final(self).len() == old(self).len() + 1 && exists|i: int|
                        0 <= i < e.len() && #[trigger] e[i].0 == k && final(self).obj(
                            old(self).len() as int,
                        ) == ObjectView::ValMap(e.remove(i))
                },
                _ => r == Err::<u32, ObjError>(ObjError::WrongKind),
            },
    {
        if m as usize >= self.objects.len() {
            return Err(ObjError::NoSuchObject);
        }
        let entries: &Vec<(Val, Val)> = match &self.objects[m as usize] {
            HostObject::ValMap(e) => e,
            _ => {
                return Err(ObjError::WrongKind);
            },
        };
        proof {
            assert(old(self).obj(m as int) == ObjectView::ValMap(entries@));
        }
        let n = entries.len();
        let mut p: usize = 0;
        while p < n && entries[p].0 != k
            invariant
                n == entries@.len(),
                p <= n,
                forall|j: int| 0 <= j < p ==> #[trigger] entries@[j].0 != k,
            decreases n - p,
        {
            p = p + 1;
        }
        if p == n {
            return Err(ObjError::NotFound);
        }
        if self.objects.len() >= u32::MAX as usize {
            return Err(ObjError::TooManyObjects);
        }
        let mut out: Vec<(Val, Val)> = Vec::new();
        copy_range(&mut out, entries, 0, p);
        copy_range(&mut out, entries, p + 1, n);
        proof {
            let e = entries@;
            assert(out@ =~= e.remove(p as int));
            assert(sorted_entries(e));
            let o = out@;
            assert forall|a: int, b: int| 0 <= a < b < o.len() implies val_lt(
                #[trigger] o[a].0,
                #[trigger] o[b].0,
            ) by {
                if b < p {
                    assert(o[a] == e[a] && o[b] == e[b]);
                } else if a < p {
                    assert(o[a] == e[a] && o[b] == e[b + 1]);
                } else {
                    assert(o[a] == e[a + 1] && o[b] == e[b + 1]);
                }
            }
            assert(e[p as int].0 == k);
        }
        let r = self.add_object(HostObject::ValMap(out));
        proof {
            lemma_push_keeps_wf(old(self), final(self));
        }
        r
    }

    /// The value bound to `k` in map `m`.
    pub fn map_get(&self, m: u32, k: Val) -> (r: Result<Val, ObjError>)
        requires
            self.wf(),
        ensures
            m >= self.len() ==> r == Err::<Val, ObjError>(ObjError::NoSuchObject),
            m < self.len() ==> match self.obj(m as int) {
                ObjectView::ValMap(e) => if has_key(e, k) {
                    exists|i: int|
                        0 <= i < e.len() && #[trigger] e[i].0 == k && r == Ok::<Val, ObjError>(
                            e[i].1,
                        )
                } else {
                    r == Err::<Val, ObjError>(ObjError::NotFound)
                },
                _ => r == Err::<Val, ObjError>(ObjError::WrongKind),
            },
    {
        if m as usize >= self.objects.len() {
            return Err(ObjError::NoSuchObject);
        }
        match &self.objects[m as usize] {
            HostObject::ValMap(e) => {
                let mut i: usize = 0;
                while i < e.len()
                    invariant
                        i <= e@.len(),
                        m < self.len(),
                        self.obj(m as int) == ObjectView::ValMap(e@),
                        forall|j: int| 0 <= j < i ==> #[trigger] e@[j].0 != k,
                    decreases e@.len() - i,
                {
                    if e[i].0 == k {
                        assert(e@[i as int].0 == k);
                        return Ok(e[i].1);
                    }
                    i = i + 1;
                }
                Err(ObjError::NotFound)
            },
            _ => Err(ObjError::WrongKind),
        }
    }
}

/// Handles are never handed out twice: an object added to a store has a
/// handle that differs from every handle added to any store that extends the
/// result, and it stays in place there unchanged.
pub proof fn lemma_handles_never_reused(
    s0: &ObjectStore,
    s1: &ObjectStore,
    s2: &ObjectStore,
    s3: &ObjectStore,
)
    requires
        s1.extends(s0),
        s1.len() == s0.len() + 1,
        s2.extends(s1),
        s3.extends(s2),
        s3.len() == s2.len() + 1,
    ensures
        s0.len() != s2.len(),
        s3.obj(s0.len() as int) == s1.obj(s0.len() as int),
{
}

/// Putting a key that a map already holds leaves the keys, their order and
/// their number as they were; only that key's value changes.
pub proof fn lemma_put_existing_key_keeps_keys(
    e: Seq<(Val, Val)>,
    e2: Seq<(Val, Val)>,
    k: Val,
    v: Val,
)
    requires
        sorted_entries(e),
        has_key(e, k),
        is_put(e, e2, k, v),
    ensures
        e2.len() == e.len(),
        forall|i: int| 0 <= i < e.len() ==> #[trigger] e2[i].0 == e[i].0,
        forall|i: int| 0 <= i < e.len() && e[i].0 != k ==> #[trigger] e2[i] == e[i],
        forall|i: int| 0 <= i < e.len() && e[i].0 == k ==> #[trigger] e2[i].1 == v,
{
    let w = choose|w: int| 0 <= w < e.len() && #[trigger] e[w].0 == k && e2 == e.update(w, (k, v));
    assert forall|i: int| 0 <= i < e.len() && e[i].0 == k implies #[trigger] e2[i].1 == v by {
        if i < w {
            assert(val_lt(e[i].0, e[w].0));
        } else if i > w {
            assert(val_lt(e[w].0, e[i].0));
        }
    }
}

} // verus!
