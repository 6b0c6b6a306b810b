//! The manifest of a pack, and the indexer that knows the blobs of all
//! published packs.

use crate::blob::BlobType;
use crate::id::Id;
use vstd::prelude::*;

verus! {

/// One blob of a pack: its id and type, and where its ciphertext lies in the
/// pack. `length` is the length of the ciphertext.
#[derive(Clone, Copy, Debug, PartialEq, Eq)]
pub struct IndexBlob {
    pub id: Id,
    pub tpe: BlobType,
    pub offset: u32,
    pub length: u32,
}

impl IndexBlob {
    pub fn id(&self) -> (id: &Id)
        ensures
            *id == self.id,
    {
        &self.id
    }

    pub fn tpe(&self) -> (tpe: &BlobType)
        ensures
            *tpe == self.tpe,
    {
        &self.tpe
    }

    pub fn offset(&self) -> (offset: &u32)
        ensures
            *offset == self.offset,
    {
        &self.offset
    }

    pub fn length(&self) -> (length: &u32)
        ensures
            *length == self.length,
    {
        &self.length
    }
}

/// The sum of the lengths of `blobs`.
pub open spec fn total_length(blobs: Seq<IndexBlob>) -> int
    decreases blobs.len(),
{
    if blobs.len() == 0 {
        0
    } else {
        total_length(blobs.drop_last()) + blobs.last().length
    }
}

/// Whether an entry of `blobs` has the id `id`.
pub open spec fn has_id(blobs: Seq<IndexBlob>, id: Id) -> bool {
    exists|i: int| 0 <= i < blobs.len() && (#[trigger] blobs[i]).id == id
}

/// No id occurs twice in `blobs`.
pub open spec fn ids_distinct(blobs: Seq<IndexBlob>) -> bool {
    forall|i: int, j: int| 0 <= i < j < blobs.len() ==> blobs[i].id != blobs[j].id
}

/// Every blob starts where the blobs before it end.
pub open spec fn offsets_consistent(blobs: Seq<IndexBlob>) -> bool {
    forall|i: int| 0 <= i < blobs.len() ==> (#[trigger] blobs[i]).offset == total_length(blobs.take(i))
}

/// What holds of the entries of every [`IndexPack`]: ids are distinct, no blob
/// is empty, every blob starts where the blobs before it end, and the pack's
/// blobs end within the range of a `u32`.
pub open spec fn well_formed(blobs: Seq<IndexBlob>) -> bool {
    &&& ids_distinct(blobs)
    &&& offsets_consistent(blobs)
    &&& forall|i: int| 0 <= i < blobs.len() ==> (#[trigger] blobs[i]).length > 0
    &&& total_length(blobs) <= u32::MAX
}

/// Taking one blob more adds its length to the total.
pub proof fn lemma_total_length_push(blobs: Seq<IndexBlob>, blob: IndexBlob)
    ensures
        total_length(blobs.push(blob)) == total_length(blobs) + blob.length,
{
    assert(blobs.push(blob).drop_last() =~= blobs);
}

/// The total of a prefix is at most the total of the whole, and grows with the prefix.
pub proof fn lemma_total_length_take(blobs: Seq<IndexBlob>, i: int)
    requires
        0 <= i <= blobs.len(),
    ensures
        0 <= total_length(blobs.take(i)) <= total_length(blobs),
        i < blobs.len() ==> total_length(blobs.take(i + 1)) == total_length(blobs.take(i))
            + blobs[i].length,
    decreases blobs.len(),
{
    if i < blobs.len() {
        assert(blobs.take(i + 1).drop_last() =~= blobs.take(i));
        assert(blobs.take(i + 1).last() == blobs[i]);
    }
    if blobs.len() == 0 {
        assert(blobs.take(i) =~= blobs);
    } else if i == blobs.len() {
        assert(blobs.take(i) =~= blobs);
        lemma_total_length_take(blobs.drop_last(), i - 1);
    } else {
        assert(blobs.drop_last().take(i) =~= blobs.take(i));
        lemma_total_length_take(blobs.drop_last(), i);
    }
}

/// In a well-formed pack, offsets rise strictly in insertion order, and every
/// blob ends where the next one starts.
pub proof fn lemma_offsets_strictly_rise(blobs: Seq<IndexBlob>, i: int, j: int)
    requires
        well_formed(blobs),
        0 <= i < j < blobs.len(),
    ensures
        blobs[i].offset + blobs[i].length <= blobs[j].offset,
        blobs[i].offset < blobs[j].offset,
        blobs[j].offset + blobs[j].length <= total_length(blobs),
    decreases j - i,
{
    lemma_total_length_take(blobs, i);
    lemma_total_length_take(blobs, j);
    if j == i + 1 {
    } else {
        lemma_offsets_strictly_rise(blobs, i, j - 1);
        lemma_total_length_take(blobs, j - 1);
    }
    lemma_total_length_take(blobs, j + 1);
}

/// The manifest of one pack: its blobs in the order in which they were added,
/// and the id of the pack once it is known.
#[derive(Debug)]
pub struct IndexPack {
    id: Option<Id>,
    blobs: Vec<IndexBlob>,
    total: u32,
}

impl View for IndexPack {
    type V = Seq<IndexBlob>;

    closed spec fn view(&self) -> Seq<IndexBlob> {
        self.blobs@
    }
}

impl IndexPack {
    /// The invariant of the type.
    pub closed spec fn wf(&self) -> bool {
        &&& well_formed(self.blobs@)
        &&& self.total == total_length(self.blobs@)
    }

    /// The id of the pack, once [`IndexPack::set_id`] has set it.
    pub closed spec fn pack_id(&self) -> Option<Id> {
        self.id
    }

    /// Whether [`IndexPack::add`] takes a blob with these values: the pack's id
    /// is not set yet, no blob has the id `id`, the blob is not empty, and it
    /// starts where the last one ends and ends within the range of a `u32`.
    pub open spec fn accepts(&self, id: Id, offset: u32, length: u32) -> bool {
        &&& self.pack_id() is None
        &&& !has_id(self@, id)
        &&& offset == total_length(self@)
        &&& length > 0
        &&& offset + length <= u32::MAX
    }

    /// What the invariant says of the entries.
    pub proof fn lemma_wf(&self)
        requires
            self.wf(),
        ensures
            well_formed(self@),
    {
    }

    /// A manifest without blobs and without id.
    pub fn new() -> (p: IndexPack)
        ensures
            p.wf(),
            p@ == Seq::<IndexBlob>::empty(),
            p.pack_id() is None,
    {
        IndexPack { id: None, blobs: Vec::new(), total: 0 }
    }

    /// Appends a blob, if the manifest accepts it; says whether it did.
    pub fn add(&mut self, id: Id, tpe: BlobType, offset: u32, length: u32) -> (added: bool)
        requires
            old(self).wf(),
        ensures
            final(self).wf(),
            added == old(self).accepts(id, offset, length),
            added ==> final(self)@ == old(self)@.push(IndexBlob { id, tpe, offset, length }),
            !added ==> final(self)@ == old(self)@,
            final(self).pack_id() == old(self).pack_id(),
    {
        if self.id.is_some() || length == 0 || offset != self.total || length > u32::MAX - offset
            || self.has(&id) {
            return false;
        }
        let blob = IndexBlob { id, tpe, offset, length };
        proof {
            let old_blobs = self.blobs@;
            let new_blobs = old_blobs.push(blob);
            lemma_total_length_push(old_blobs, blob);
            assert forall|i: int| 0 <= i < new_blobs.len() implies (#[trigger] new_blobs[i]).offset
                == total_length(new_blobs.take(i)) by {
                if i < old_blobs.len() {
                    assert(new_blobs.take(i) =~= old_blobs.take(i));
                } else {
                    assert(new_blobs.take(i) =~= old_blobs);
                }
            }
            assert forall|i: int, j: int| 0 <= i < j < new_blobs.len() implies new_blobs[i].id
                != new_blobs[j].id by {
                if j == old_blobs.len() {
                    assert(old_blobs[i].id != id);
                }
            }
        }
        self.blobs.push(blob);
        self.total = self.total + length;
        true
    }

    /// The blobs, in the order in which they were added.
    pub fn blobs(&self) -> (blobs: &Vec<IndexBlob>)
        ensures
            blobs@ == self@,
    {
        &self.blobs
    }

    /// Sets the id of the pack, unless it is set already; says whether it did.
    pub fn set_id(&mut self, id: Id) -> (set: bool)
        requires
            old(self).wf(),
        ensures
            final(self).wf(),
            final(self)@ == old(self)@,
            set == (old(self).pack_id() is None),
            set ==> final(self).pack_id() == Some(id),
            !set ==> final(self).pack_id() == old(self).pack_id(),
    {
        if self.id.is_some() {
            return false;
        }
        self.id = Some(id);
        true
    }

    /// The id of the pack, if it is set.
    pub fn id(&self) -> (id: Option<Id>)
        ensures
            id == self.pack_id(),
    {
        self.id
    }

    /// Whether the manifest holds no blob.
    pub fn is_empty(&self) -> (b: bool)
        ensures
            b == (self@.len() == 0),
    {
        self.blobs.len() == 0
    }

    /// The number of blobs.
    pub fn len(&self) -> (n: usize)
        ensures
            n == self@.len(),
    {
        self.blobs.len()
    }

    /// The sum of the lengths of the blobs: where the next blob starts.
    pub fn total_length(&self) -> (n: u32)
        requires
            self.wf(),
        ensures
            n == total_length(self@),
    {
        self.total
    }

    /// Whether a blob of the manifest has the id `id`.
    pub fn has(&self, id: &Id) -> (b: bool)
        ensures
            b == has_id(self@, *id),
    {
        let mut i: usize = 0;
        while i < self.blobs.len()
            invariant
                i <= self.blobs@.len(),
                forall|j: int| 0 <= j < i ==> (#[trigger] self.blobs@[j]).id != *id,
            decreases self.blobs@.len() - i,
        {
            if self.blobs[i].id.equals(id) {
                return true;
            }
            i += 1;
        }
        false
    }
}

/// The registry of the blobs that finished packs hold.
#[derive(Debug)]
pub struct Indexer {
    packs: Vec<IndexPack>,
}

impl View for Indexer {
    type V = Seq<Seq<IndexBlob>>;

    /// The manifests that were published, in the order of publication.
    closed spec fn view(&self) -> Seq<Seq<IndexBlob>> {
        Seq::new(self.packs@.len(), |i: int| self.packs@[i]@)
    }
}

/// Whether a blob of one of `packs` has the id `id`.
pub open spec fn known(packs: Seq<Seq<IndexBlob>>, id: Id) -> bool {
    exists|i: int| 0 <= i < packs.len() && has_id(#[trigger] packs[i], id)
}

impl Indexer {
    /// An indexer that knows no pack.
    pub fn new() -> (x: Indexer)
        ensures
            x@ == Seq::<Seq<IndexBlob>>::empty(),
    {
        let x = Indexer { packs: Vec::new() };
        assert(x@ =~= Seq::<Seq<IndexBlob>>::empty());
        x
    }

    /// Whether a published pack holds a blob with the id `id`. It is true of no
    /// id that was never published.
    pub fn has(&self, id: &Id) -> (b: bool)
        ensures
            b == known(self@, *id),
    {
        let mut i: usize = 0;
        while i < self.packs.len()
            invariant
                i <= self.packs@.len(),
                forall|j: int| 0 <= j < i ==> !has_id(#[trigger] self@[j], *id),
            decreases self.packs@.len() - i,
        {
            if self.packs[i].has(id) {
                assert(has_id(self@[i as int], *id));
                return true;
            }
            i += 1;
        }
        false
    }

    /// Publishes the manifest of a finished pack: from now on [`Indexer::has`]
    /// finds its blobs, and all those it found before.
    pub fn add(&mut self, pack: IndexPack)
        ensures
            final(self)@ == old(self)@.push(pack@),
            forall|id: Id| known(final(self)@, id) == (known(old(self)@, id) || has_id(pack@, id)),
    {
        self.packs.push(pack);
        proof {
            let before = old(self)@;
            let after = self@;
            assert(after =~= before.push(pack@));
            assert forall|id: Id| known(after, id) == (known(before, id) || has_id(pack@, id)) by {
                if known(before, id) {
                    let i = choose|i: int| 0 <= i < before.len() && has_id(#[trigger] before[i], id);
                    assert(has_id(after[i], id));
                }
                if has_id(pack@, id) {
                    assert(has_id(after[before.len() as int], id));
                }
                if known(after, id) {
                    let i = choose|i: int| 0 <= i < after.len() && has_id(#[trigger] after[i], id);
                    if i < before.len() {
                        assert(has_id(before[i], id));
                    }
                }
            }
        }
    }

    /// The number of packs that were published.
    pub fn len(&self) -> (n: usize)
        ensures
            n == self@.len(),
    {
        self.packs.len()
    }

    /// The manifests that were published, in the order of publication.
    pub fn packs(&self) -> (packs: &Vec<IndexPack>)
        ensures
            packs@.len() == self@.len(),
            forall|i: int| 0 <= i < packs@.len() ==> (#[trigger] packs@[i])@ == self@[i],
    {
        &self.packs
    }
}

} // verus!
