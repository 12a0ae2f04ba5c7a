use vstd::prelude::*;

verus! {

/// The elements stored in a sequence of chunks, in order: the chunks
/// concatenated.
pub open spec fn flatten_chunks<T>(chunks: Seq<Vec<T>>) -> Seq<T>
    decreases chunks.len(),
{
    if chunks.len() == 0 {
        Seq::empty()
    } else {
        flatten_chunks(chunks.drop_last()) + chunks.last()@
    }
}

/// The shape a `ChunkedVec` keeps: no chunk is empty, every chunk but the last
/// one is full, and the last one never holds more than a full chunk.
pub open spec fn chunk_layout<T>(chunks: Seq<Vec<T>>, chunk_size: nat) -> bool {
    &&& forall|i: int| 0 <= i < chunks.len() ==> #[trigger] chunks[i]@.len() > 0
    &&& forall|i: int| 0 <= i < chunks.len() - 1 ==> #[trigger] chunks[i]@.len() == chunk_size
    &&& chunks.len() > 0 && chunk_size > 0 ==> chunks.last()@.len() <= chunk_size
}

/// A growable sequence stored as a list of separately allocated chunks of
/// `CHUNK_SIZE` elements, so that pushing never moves elements already stored.
pub struct ChunkedVec<T, const CHUNK_SIZE: usize> {
    chunks: Vec<Vec<T>>,
}

/// Number of elements held by chunks laid out as `chunk_layout` says.
proof fn lemma_flatten_len<T>(chunks: Seq<Vec<T>>, chunk_size: nat)
    requires
        chunk_layout(chunks, chunk_size),
    ensures
        chunks.len() == 0 ==> flatten_chunks(chunks).len() == 0,
        chunks.len() > 0 ==> flatten_chunks(chunks).len() == (chunks.len() - 1) * chunk_size
            + chunks.last()@.len(),
    decreases chunks.len(),
{
    if chunks.len() > 1 {
        let prefix = chunks.drop_last();
        assert(chunk_layout(prefix, chunk_size));
        lemma_flatten_len(prefix, chunk_size);
        assert(prefix.last() == chunks[chunks.len() - 2]);
        assert((chunks.len() - 2) * chunk_size + chunk_size == (chunks.len() - 1) * chunk_size)
            by (nonlinear_arith);
    } else if chunks.len() == 1 {
        assert(flatten_chunks(chunks.drop_last()).len() == 0);
    }
}

/// Where an element of the concatenation lives: element `i` is element
/// `i % chunk_size` of chunk `i / chunk_size`.
proof fn lemma_flatten_index<T>(chunks: Seq<Vec<T>>, chunk_size: nat, i: int)
    requires
        chunk_layout(chunks, chunk_size),
        chunk_size > 0,
        0 <= i < flatten_chunks(chunks).len(),
    ensures
        0 <= i / (chunk_size as int) < chunks.len(),
        0 <= i % (chunk_size as int) < chunks[i / (chunk_size as int)]@.len(),
        flatten_chunks(chunks)[i] == chunks[i / (chunk_size as int)]@[i % (chunk_size as int)],
    decreases chunks.len(),
{
    let c = chunk_size as int;
    let n = chunks.len() as int;
    let prefix = chunks.drop_last();
    assert(chunk_layout(prefix, chunk_size));
    lemma_flatten_len(chunks, chunk_size);
    lemma_flatten_len(prefix, chunk_size);
    let plen = flatten_chunks(prefix).len() as int;
    assert(plen == (n - 1) * c) by {
        if n > 1 {
            assert(prefix.last() == chunks[n - 2]);
            assert((n - 2) * c + c == (n - 1) * c) by (nonlinear_arith);
        }
    }
    if i < plen {
        lemma_flatten_index(prefix, chunk_size, i);
        assert(prefix[i / c] == chunks[i / c]);
    } else {
        let j = i - plen;
        assert(0 <= j < chunks.last()@.len());
        assert(j < c);
        assert(i == (n - 1) * c + j);
        assert(i / c == n - 1 && i % c == j) by (nonlinear_arith)
            requires
                i == (n - 1) * c + j,
                0 <= j < c,
                n >= 1,
        {
            vstd::arithmetic::div_mod::lemma_fundamental_div_mod_converse(i, c, n - 1, j);
        }
    }
}

/// Writing element `i` of the concatenation writes element `i % chunk_size`
/// of chunk `i / chunk_size`, and keeps the layout.
proof fn lemma_flatten_update<T>(chunks: Seq<Vec<T>>, chunk_size: nat, i: int, new_chunk: Vec<T>, v: T)
    requires
        chunk_layout(chunks, chunk_size),
        chunk_size > 0,
        0 <= i < flatten_chunks(chunks).len(),
        new_chunk@ == chunks[i / (chunk_size as int)]@.update(i % (chunk_size as int), v),
    ensures
        chunk_layout(chunks.update(i / (chunk_size as int), new_chunk), chunk_size),
        flatten_chunks(chunks.update(i / (chunk_size as int), new_chunk)) == flatten_chunks(
            chunks,
        ).update(i, v),
    decreases chunks.len(),
{
    let c = chunk_size as int;
    let n = chunks.len() as int;
    let prefix = chunks.drop_last();
    lemma_flatten_index(chunks, chunk_size, i);
    lemma_flatten_len(chunks, chunk_size);
    lemma_flatten_len(prefix, chunk_size);
    assert(chunk_layout(prefix, chunk_size));
    let plen = flatten_chunks(prefix).len() as int;
    assert(plen == (n - 1) * c) by {
        if n > 1 {
            assert(prefix.last() == chunks[n - 2]);
            assert((n - 2) * c + c == (n - 1) * c) by (nonlinear_arith);
        }
    }
    let ci = i / c;
    let updated = chunks.update(ci, new_chunk);
    assert(chunk_layout(updated, chunk_size)) by {
        assert forall|k: int| 0 <= k < updated.len() implies #[trigger] updated[k]@.len()
            == chunks[k]@.len() by {}
    }
    if i < plen {
        lemma_flatten_index(prefix, chunk_size, i);
        assert(prefix[ci] == chunks[ci]);
        lemma_flatten_update(prefix, chunk_size, i, new_chunk, v);
        assert(updated.drop_last() == prefix.update(ci, new_chunk));
        assert(updated.last() == chunks.last());
        assert(flatten_chunks(updated) =~= flatten_chunks(chunks).update(i, v));
    } else {
        assert(ci == n - 1) by {
            if ci < n - 1 {
                assert(ci * c <= (n - 2) * c) by (nonlinear_arith)
                    requires ci <= n - 2, c > 0;
                vstd::arithmetic::div_mod::lemma_fundamental_div_mod(i, c);
            }
        }
        assert(updated.drop_last() == prefix);
        vstd::arithmetic::div_mod::lemma_fundamental_div_mod(i, c);
        assert(c * ci == (n - 1) * c) by (nonlinear_arith)
            requires ci == n - 1;
        assert(i % c == i - plen);
        assert(flatten_chunks(updated) =~= flatten_chunks(chunks).update(i, v));
    }
}

impl<T, const CHUNK_SIZE: usize> ChunkedVec<T, CHUNK_SIZE> {
    /// The elements, in the order they were pushed.
    pub closed spec fn view(&self) -> Seq<T> {
        flatten_chunks(self.chunks@)
    }

    /// The chunks are laid out as `chunk_layout` says and the element count
    /// fits in a `usize`.
    pub closed spec fn wf(&self) -> bool {
        &&& chunk_layout(self.chunks@, CHUNK_SIZE as nat)
        &&& flatten_chunks(self.chunks@).len() <= usize::MAX
    }

    /// An empty vector; `capacity` is how many chunks it has room for before
    /// its chunk list reallocates.
    pub fn with_capacity(capacity: usize) -> (r: Self)
        ensures
            r.wf(),
            r.view() == Seq::<T>::empty(),
    {
        Self { chunks: Vec::with_capacity(capacity) }
    }

    /// Appends `elem`, opening a new chunk when the last one is full.
    pub fn push(&mut self, elem: T)
        requires
            old(self).wf(),
            old(self).view().len() < usize::MAX,
        ensures
            final(self).wf(),
            final(self).view() == old(self).view().push(elem),
    {
        let ghost old_chunks = self.chunks@;
        let n = self.chunks.len();
        if n == 0 || self.chunks[n - 1].len() == CHUNK_SIZE {
            let mut chunk = Vec::with_capacity(CHUNK_SIZE);
            chunk.push(elem);
            self.chunks.push(chunk);
            proof {
                let s = self.chunks@;
                assert(s.drop_last() == old_chunks);
                assert(flatten_chunks(s) == flatten_chunks(old_chunks) + seq![elem]);
                assert(flatten_chunks(old_chunks).push(elem) =~= flatten_chunks(old_chunks) + seq![elem]);
                if n > 0 {
                    assert(old_chunks[n - 1]@.len() == CHUNK_SIZE);
                }
            }
        } else {
            proof {
                lemma_flatten_len(old_chunks, CHUNK_SIZE as nat);
            }
            self.chunks[n - 1].push(elem);
            proof {
                let s = self.chunks@;
                assert(s.drop_last() == old_chunks.drop_last());
                assert(s.last()@ == old_chunks.last()@.push(elem));
                assert(flatten_chunks(s) =~= flatten_chunks(old_chunks).push(elem));
                if CHUNK_SIZE > 0 {
                    assert(old_chunks.last()@.len() != CHUNK_SIZE);
                }
            }
        }
    }

    /// Number of elements stored.
    pub fn len(&self) -> (r: usize)
        requires
            self.wf(),
        ensures
            r == self.view().len(),
    {
        proof {
            lemma_flatten_len(self.chunks@, CHUNK_SIZE as nat);
        }
        let n = self.chunks.len();
        if n == 0 {
            0
        } else {
            let last_len = self.chunks[n - 1].len();
            proof {
                assert((n - 1) * CHUNK_SIZE <= (n - 1) * CHUNK_SIZE + last_len);
            }
            (n - 1) * CHUNK_SIZE + last_len
        }
    }

    /// The underlying chunks: their concatenation is the vector's content,
    /// laid out as `chunk_layout` says.
    pub fn chunks(&self) -> (r: &Vec<Vec<T>>)
        requires
            self.wf(),
        ensures
            flatten_chunks(r@) == self.view(),
            chunk_layout(r@, CHUNK_SIZE as nat),
    {
        &self.chunks
    }

    /// The element at `index`, to be written in place.
    pub fn index_mut(&mut self, index: usize) -> (r: &mut T)
        requires
            old(self).wf(),
            CHUNK_SIZE > 0,
            index < old(self).view().len(),
        ensures
            *r == old(self).view()[index as int],
            final(self).wf(),
            final(self).view() == old(self).view().update(index as int, *final(r)),
    {
        let ghost old_chunks = self.chunks@;
        proof {
            lemma_flatten_index(old_chunks, CHUNK_SIZE as nat, index as int);
        }
        let ci = index / CHUNK_SIZE;
        let ei = index % CHUNK_SIZE;
        let chunk = &mut self.chunks[ci];
        let ghost final_chunk = *final(chunk);
        let r = &mut chunk[ei];
        proof {
            lemma_flatten_update(old_chunks, CHUNK_SIZE as nat, index as int, final_chunk, *final(r));
        }
        r
    }
}

impl<T, const CHUNK_SIZE: usize> std::ops::Index<usize> for ChunkedVec<T, CHUNK_SIZE> {
    type Output = T;

    /// The element at `index`.
    fn index(&self, index: usize) -> (r: &T)
        ensures
            *r == self.view()[index as int],
    {
        proof {
            lemma_flatten_index(self.chunks@, CHUNK_SIZE as nat, index as int);
        }
        &self.chunks[index / CHUNK_SIZE][index % CHUNK_SIZE]
    }
}

impl<T, const CHUNK_SIZE: usize> vstd::std_specs::core::IndexSpecImpl<usize> for ChunkedVec<T, CHUNK_SIZE> {
    /// Indexing is defined on the stored elements of a well-formed vector
    /// with non-empty chunks.
    open spec fn index_req(&self, index: &usize) -> bool {
        &&& self.wf()
        &&& CHUNK_SIZE > 0
        &&& (*index as int) < self.view().len()
    }
}

} // verus!
