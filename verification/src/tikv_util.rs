//! Small utilities shared by the whole crate.
use vstd::prelude::*;

verus! {

/// Represents a value of one of two possible types (a more generic `Result`).
#[derive(Debug)]
pub enum Either<L, R> {
    Left(L),
    Right(R),
}

impl<L, R> Either<L, R> {
    /// Borrows the contents of either side.
    pub fn as_ref(&self) -> (res: Either<&L, &R>)
        ensures
            match *self {
                Either::Left(l) => res == Either::<&L, &R>::Left(&l),
                Either::Right(r) => res == Either::<&L, &R>::Right(&r),
            },
    {
        match self {
            Either::Left(l) => Either::Left(l),
            Either::Right(r) => Either::Right(r),
        }
    }

    /// Mutably borrows the contents of either side.
    pub fn as_mut(&mut self) -> (res: Either<&mut L, &mut R>)
        ensures
            match res {
                Either::Left(l) => *old(self) == Either::<L, R>::Left(*l) && *final(self) == Either::<L, R>::Left(*final(l)),
                Either::Right(r) => *old(self) == Either::<L, R>::Right(*r) && *final(self) == Either::<L, R>::Right(*final(r)),
            },
    {
        match self {
            Either::Left(l) => Either::Left(l),
            Either::Right(r) => Either::Right(r),
        }
    }

    /// The left value, if this is a `Left`.
    pub fn left(self) -> (res: Option<L>)
        ensures
            match self {
                Either::Left(l) => res == Some(l),
                Either::Right(_) => res is None,
            },
    {
        match self {
            Either::Left(l) => Some(l),
            _ => None,
        }
    }

    /// The right value, if this is a `Right`.
    pub fn right(self) -> (res: Option<R>)
        ensures
            match self {
                Either::Right(r) => res == Some(r),
                Either::Left(_) => res is None,
            },
    {
        match self {
            Either::Right(r) => Some(r),
            _ => None,
        }
    }
}

/// Marks types that can be cloned.
pub trait AssertClone: Clone {}

/// Marks types that can be copied.
pub trait AssertCopy: Copy {}

/// Marks types that can be sent to another thread.
pub trait AssertSend: Send {}

/// Marks types that can be shared between threads.
pub trait AssertSync: Sync {}

/// A vector tagged with the name of what it holds; its items are meant to be
/// taken out before it goes away.
pub struct MustConsumeVec<T> {
    tag: &'static str,
    v: Vec<T>,
}

impl<T> MustConsumeVec<T> {
    /// The tag it was made with.
    pub closed spec fn tag_view(&self) -> &'static str {
        self.tag
    }

    /// The items it holds.
    pub closed spec fn items(&self) -> Seq<T> {
        self.v@
    }

    /// An empty vector with the given tag.
    pub fn new(tag: &'static str) -> (res: MustConsumeVec<T>)
        ensures
            res.tag_view() == tag,
            res.items() == Seq::<T>::empty(),
    {
        MustConsumeVec::with_capacity(tag, 0)
    }

    /// An empty vector with the given tag and room for `cap` items.
    pub fn with_capacity(tag: &'static str, cap: usize) -> (res: MustConsumeVec<T>)
        ensures
            res.tag_view() == tag,
            res.items() == Seq::<T>::empty(),
    {
        MustConsumeVec { tag, v: Vec::with_capacity(cap) }
    }

    /// Moves all items into a new vector with the same tag, leaving this one
    /// empty.
    pub fn take(&mut self) -> (res: Self)
        ensures
            res.tag_view() == old(self).tag_view(),
            res.items() == old(self).items(),
            final(self).tag_view() == old(self).tag_view(),
            final(self).items() == Seq::<T>::empty(),
    {
        let mut v: Vec<T> = Vec::new();
        std::mem::swap(&mut v, &mut self.v);
        MustConsumeVec { tag: self.tag, v }
    }

    /// Appends an item.
    pub fn push(&mut self, item: T)
        ensures
            final(self).tag_view() == old(self).tag_view(),
            final(self).items() == old(self).items().push(item),
    {
        self.v.push(item);
    }

    /// The number of items held.
    pub fn len(&self) -> (res: usize)
        ensures
            res == self.items().len(),
    {
        self.v.len()
    }

    /// Whether it holds no item.
    pub fn is_empty(&self) -> (res: bool)
        ensures
            res == (self.items().len() == 0),
    {
        self.v.len() == 0
    }

    /// The items held, in order.
    pub fn as_slice(&self) -> (res: &[T])
        ensures
            res@ == self.items(),
    {
        self.v.as_slice()
    }
}

/// Builds a key in a buffer that keeps room in front for a prefix, so that
/// the prefix can be set later without moving the key.
pub struct KeyBuilder {
    buf: Vec<u8>,
    start: usize,
}

impl KeyBuilder {
    /// The key built so far: the buffer past the reserved room.
    pub closed spec fn key(&self) -> Seq<u8> {
        self.buf@.skip(self.start as int)
    }

    /// The room left in front for a prefix.
    pub closed spec fn reserved(&self) -> nat {
        self.start as nat
    }

    pub closed spec fn wf(&self) -> bool {
        self.start <= self.buf@.len()
    }

    /// A builder holding `s`, with `reserved_prefix_len` bytes of room in
    /// front of it.
    pub fn from_slice(s: &[u8], reserved_prefix_len: usize, reserved_suffix_len: usize) -> (res: KeyBuilder)
        requires
            reserved_prefix_len + s@.len() <= usize::MAX,
        ensures
            res.wf(),
            res.key() == s@,
            res.reserved() == reserved_prefix_len,
    {
        let mut buf: Vec<u8> = Vec::new();
        let mut i: usize = 0;
        while i < reserved_prefix_len
            invariant
                i <= reserved_prefix_len,
                buf@.len() == i,
            decreases reserved_prefix_len - i,
        {
            buf.push(0u8);
            i = i + 1;
        }
        let mut j: usize = 0;
        while j < s.len()
            invariant
                j <= s@.len(),
                buf@.len() == reserved_prefix_len + j,
                buf@.skip(reserved_prefix_len as int) == s@.subrange(0, j as int),
            decreases s@.len() - j,
        {
            let ghost before = buf@;
            buf.push(s[j]);
            assert(buf@.skip(reserved_prefix_len as int) =~= s@.subrange(0, j + 1)) by {
                assert(before.skip(reserved_prefix_len as int) =~= s@.subrange(0, j as int));
            }
            j = j + 1;
        }
        assert(s@.subrange(0, s@.len() as int) =~= s@);
        KeyBuilder { buf, start: reserved_prefix_len }
    }

    /// Appends bytes to the key.
    pub fn append(&mut self, content: &[u8])
        requires
            old(self).wf(),
        ensures
            final(self).wf(),
            final(self).key() == old(self).key() + content@,
            final(self).reserved() == old(self).reserved(),
    {
        let mut j: usize = 0;
        let ghost k0 = self.key();
        while j < content.len()
            invariant
                self.wf(),
                j <= content@.len(),
                self.key() == k0 + content@.subrange(0, j as int),
                self.start == old(self).start,
            decreases content@.len() - j,
        {
            let ghost before = self.buf@;
            self.buf.push(content[j]);
            assert(self.buf@ =~= before.push(content@[j as int]));
            assert(content@.subrange(0, j + 1) =~= content@.subrange(0, j as int).push(content@[j as int]));
            assert(self.buf@.skip(self.start as int) =~= before.skip(self.start as int).push(content@[j as int]));
            j = j + 1;
        }
        assert(content@.subrange(0, content@.len() as int) =~= content@);
    }

    /// Puts `content` in front of the key, in the reserved room, which must
    /// be large enough.
    pub fn set_prefix(&mut self, content: &[u8])
        requires
            old(self).wf(),
            content@.len() <= old(self).reserved(),
        ensures
            final(self).wf(),
            final(self).key() == content@ + old(self).key(),
            final(self).reserved() == old(self).reserved() - content@.len(),
    {
        let pos = self.start - content.len();
        let ghost k0 = self.key();
        let ghost b0 = self.buf@;
        let mut j: usize = 0;
        while j < content.len()
            invariant
                j <= content@.len(),
                pos + content@.len() == old(self).start,
                self.start == old(self).start,
                self.buf@.len() == b0.len(),
                b0 == old(self).buf@,
                self.wf(),
                forall|t: int| 0 <= t < pos + j ==> #[trigger] self.buf@[t] == (if t < pos { b0[t] } else { content@[t - pos] }),
                forall|t: int| pos + j <= t < b0.len() ==> #[trigger] self.buf@[t] == b0[t],
            decreases content@.len() - j,
        {
            self.buf.set(pos + j, content[j]);
            j = j + 1;
        }
        self.start = pos;
        assert(self.buf@.skip(pos as int) =~= content@ + k0);
    }

    /// The key built so far.
    pub fn as_slice(&self) -> (res: &[u8])
        requires
            self.wf(),
        ensures
            res@ == self.key(),
    {
        let s = self.buf.as_slice();
        slice_from(s, self.start)
    }

    /// The key built, without the unused room.
    pub fn build(self) -> (res: Vec<u8>)
        requires
            self.wf(),
        ensures
            res@ == self.key(),
    {
        if self.start == 0 {
            assert(self.buf@.skip(0) =~= self.buf@);
            return self.buf;
        }
        let mut out: Vec<u8> = Vec::new();
        let mut j: usize = self.start;
        while j < self.buf.len()
            invariant
                self.start <= j <= self.buf@.len(),
                out@ == self.buf@.subrange(self.start as int, j as int),
            decreases self.buf@.len() - j,
        {
            out.push(self.buf[j]);
            assert(out@ =~= self.buf@.subrange(self.start as int, j + 1));
            j = j + 1;
        }
        out
    }
}

/// The part of `s` from `start` on.
fn slice_from(s: &[u8], start: usize) -> (res: &[u8])
    requires
        start <= s@.len(),
    ensures
        res@ == s@.skip(start as int),
{
    vstd::slice::slice_subrange(s, start, s.len())
}

} // verus!
