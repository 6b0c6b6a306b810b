//! What holds of a packer over a sequence of calls: every id is stored once,
//! every blob comes back from its pack, and packs keep to the thresholds.

use crate::blob::packer::is_emitted;
use crate::blob::packer::Pack;
use crate::blob::packer::Packer;
use crate::blob::BlobType;
use crate::error::Error;
use crate::id::Id;
use crate::index::has_id;
use crate::index::ids_distinct;
use crate::index::known;
use crate::index::lemma_total_length_push;
use crate::index::total_length;
use crate::index::IndexBlob;
use crate::crypto::opened;
use crate::packfile::blob_bytes;
use crate::packfile::lemma_pack_lists_one;
use crate::packfile::pack_lists;
use vstd::prelude::*;

verus! {

/// The blobs of the published packs, in the order of publication.
pub open spec fn published(packs: Seq<Seq<IndexBlob>>) -> Seq<IndexBlob>
    decreases packs.len(),
{
    if packs.len() == 0 {
        Seq::empty()
    } else {
        published(packs.drop_last()) + packs.last()
    }
}

/// All blobs that are stored: those of the published packs, then those of the
/// pending pack.
pub open spec fn stored(packs: Seq<Seq<IndexBlob>>, pending: Seq<IndexBlob>) -> Seq<IndexBlob> {
    published(packs) + pending
}

/// One call of [`Packer::add_at`]: the packer before and after, the indexer as
/// the call saw it, the arguments and the result.
pub struct AddCall {
    pub pre: Packer,
    pub post: Packer,
    pub indexer: Seq<Seq<IndexBlob>>,
    pub data: Seq<u8>,
    pub id: Id,
    pub tpe: BlobType,
    pub now: u64,
    pub r: Result<(bool, Option<Pack>), Error>,
}

impl AddCall {
    /// The call is one that [`Packer::add_at`] can make.
    pub open spec fn valid(self) -> bool {
        &&& self.pre.wf()
        &&& self.post.wf()
        &&& Packer::add_post(
            self.pre,
            self.post,
            self.indexer,
            self.data,
            self.id,
            self.tpe,
            self.now,
            self.r,
        )
    }

    /// The call added the blob.
    pub open spec fn accepted(self) -> bool {
        self.r is Ok && self.r->Ok_0.0
    }

    /// The call finished a pack.
    pub open spec fn flushed(self) -> bool {
        self.r is Ok && self.r->Ok_0.1 is Some
    }

    /// The entry of the blob, where the call added it.
    pub open spec fn blob(self) -> IndexBlob {
        IndexBlob {
            id: self.id,
            tpe: self.tpe,
            offset: self.pre.bytes().len() as u32,
            length: (self.data.len() + 32) as u32,
        }
    }

    /// The indexer after the caller has published the pack that the call
    /// finished, if it finished one.
    pub open spec fn indexer_after(self) -> Seq<Seq<IndexBlob>> {
        if self.r is Ok && self.r->Ok_0.1 is Some {
            self.indexer.push(self.r->Ok_0.1->0.index@)
        } else {
            self.indexer
        }
    }
}

/// A run of a packer: each call starts with the packer that the call before
/// left, and sees the indexer with every pack that was finished before.
pub open spec fn is_run(calls: Seq<AddCall>) -> bool {
    &&& forall|i: int| 0 <= i < calls.len() ==> (#[trigger] calls[i]).valid()
    &&& forall|i: int|
        0 <= i < calls.len() - 1 ==> (#[trigger] calls[i + 1]).pre == calls[i].post && calls[i
            + 1].indexer == calls[i].indexer_after()
}

/// The entries of the blobs that the calls added, in the order of the calls.
pub open spec fn accepted_blobs(calls: Seq<AddCall>) -> Seq<IndexBlob>
    decreases calls.len(),
{
    if calls.len() == 0 {
        Seq::empty()
    } else if calls.last().accepted() {
        accepted_blobs(calls.drop_last()).push(calls.last().blob())
    } else {
        accepted_blobs(calls.drop_last())
    }
}

/// A pack that is published adds its blobs to the published ones.
pub proof fn lemma_published_push(packs: Seq<Seq<IndexBlob>>, pack: Seq<IndexBlob>)
    ensures
        published(packs.push(pack)) == published(packs) + pack,
{
    assert(packs.push(pack).drop_last() =~= packs);
}

/// The indexer knows an id exactly if a published blob has it.
pub proof fn lemma_known_is_published(packs: Seq<Seq<IndexBlob>>, id: Id)
    ensures
        known(packs, id) == has_id(published(packs), id),
    decreases packs.len(),
{
    if packs.len() == 0 {
    } else {
        let init = packs.drop_last();
        let all = published(packs);
        lemma_known_is_published(init, id);
        if known(packs, id) {
            let i = choose|i: int| 0 <= i < packs.len() && has_id(#[trigger] packs[i], id);
            if i < init.len() {
                assert(has_id(init[i], id));
                let k = choose|k: int|
                    0 <= k < published(init).len() && (#[trigger] published(init)[k]).id == id;
                assert(all[k].id == id);
            } else {
                let k = choose|k: int|
                    0 <= k < packs.last().len() && (#[trigger] packs.last()[k]).id == id;
                assert(all[published(init).len() + k].id == id);
            }
        }
        if has_id(all, id) {
            let k = choose|k: int| 0 <= k < all.len() && (#[trigger] all[k]).id == id;
            if k < published(init).len() {
                assert(published(init)[k].id == id);
                let i = choose|i: int| 0 <= i < init.len() && has_id(#[trigger] init[i], id);
                assert(has_id(packs[i], id));
            } else {
                assert(packs.last()[k - published(init).len()].id == id);
                assert(has_id(packs[packs.len() - 1], id));
            }
        }
    }
}

/// A stored blob has an id exactly if the pending pack or the indexer holds it.
pub proof fn lemma_stored_has_id(packs: Seq<Seq<IndexBlob>>, pending: Seq<IndexBlob>, id: Id)
    ensures
        has_id(stored(packs, pending), id) == (has_id(pending, id) || known(packs, id)),
{
    lemma_known_is_published(packs, id);
    let all = stored(packs, pending);
    let first = published(packs);
    if has_id(all, id) {
        let k = choose|k: int| 0 <= k < all.len() && (#[trigger] all[k]).id == id;
        if k < first.len() {
            assert(first[k].id == id);
        } else {
            assert(pending[k - first.len()].id == id);
        }
    }
    if has_id(pending, id) {
        let k = choose|k: int| 0 <= k < pending.len() && (#[trigger] pending[k]).id == id;
        assert(all[first.len() + k].id == id);
    }
    if has_id(first, id) {
        let k = choose|k: int| 0 <= k < first.len() && (#[trigger] first[k]).id == id;
        assert(all[k].id == id);
    }
}

/// One call of `add` stores the blob exactly if no stored blob has its id, and
/// then it is stored after all others; else nothing changes.
pub proof fn lemma_add_stores_new_ids_only(call: AddCall)
    requires
        call.valid(),
    ensures
        call.accepted() ==> !has_id(stored(call.indexer, call.pre.entries()), call.id),
        call.r is Ok && !call.accepted() ==> has_id(
            stored(call.indexer, call.pre.entries()),
            call.id,
        ),
        stored(call.indexer_after(), call.post.entries()) == if call.accepted() {
            stored(call.indexer, call.pre.entries()).push(call.blob())
        } else {
            stored(call.indexer, call.pre.entries())
        },
{
    let before = stored(call.indexer, call.pre.entries());
    let after = stored(call.indexer_after(), call.post.entries());
    lemma_stored_has_id(call.indexer, call.pre.entries(), call.id);
    if call.accepted() {
        let entries = call.pre.entries().push(call.blob());
        if call.r->Ok_0.1 is Some {
            lemma_published_push(call.indexer, entries);
        }
        assert(after =~= before.push(call.blob()));
    } else {
        assert(after =~= before);
    }
}

/// In a run, the stored blobs are those that were stored at its start and then
/// those that the calls added, in the order of the calls. A call adds its
/// blob exactly if no blob that is stored by then has its id. So no id is
/// stored by two calls, none that was stored at the start is stored again,
/// and the number of ids that the run stores is the number of calls that
/// were given an id that was not stored yet.
pub proof fn lemma_run_stores_each_id_once(calls: Seq<AddCall>)
    requires
        is_run(calls),
        calls.len() > 0,
    ensures
        stored(calls.last().indexer_after(), calls.last().post.entries()) == stored(
            calls[0].indexer,
            calls[0].pre.entries(),
        ) + accepted_blobs(calls),
        ids_distinct(accepted_blobs(calls)),
        forall|k: int|
            0 <= k < accepted_blobs(calls).len() ==> !has_id(
                stored(calls[0].indexer, calls[0].pre.entries()),
                (#[trigger] accepted_blobs(calls)[k]).id,
            ),
        forall|i: int|
            0 <= i < calls.len() && (#[trigger] calls[i]).r is Ok ==> (calls[i].accepted()
                <==> !has_id(
                stored(calls[0].indexer, calls[0].pre.entries()) + accepted_blobs(calls.take(i)),
                calls[i].id,
            )),
    decreases calls.len(),
{
    let start = stored(calls[0].indexer, calls[0].pre.entries());
    let last = calls.last();
    let init = calls.drop_last();
    if calls.len() == 1 {
        assert(accepted_blobs(init) =~= Seq::<IndexBlob>::empty());
        assert(start + accepted_blobs(init) =~= start);
    } else {
        assert(is_run(init)) by {
            assert forall|i: int| 0 <= i < init.len() implies (#[trigger] init[i]).valid() by {
                assert(calls[i].valid());
            }
            assert forall|i: int| 0 <= i < init.len() - 1 implies (#[trigger] init[i + 1]).pre
                == init[i].post && init[i + 1].indexer == init[i].indexer_after() by {
                assert(calls[i + 1].pre == calls[i].post);
            }
        }
        lemma_run_stores_each_id_once(init);
        assert(calls[calls.len() - 2 + 1].pre == calls[calls.len() - 2].post);
        assert(init.last() == calls[calls.len() - 2]);
        assert(last.pre == init.last().post);
        assert(last.indexer == init.last().indexer_after());
    }
    let before = start + accepted_blobs(init);
    assert(stored(last.indexer, last.pre.entries()) == before);
    assert(last.valid());
    lemma_add_stores_new_ids_only(last);
    let added = accepted_blobs(calls);
    if last.accepted() {
        assert(start + added =~= before.push(last.blob()));
        assert forall|k: int| 0 <= k < added.len() implies !has_id(start, (#[trigger] added[k]).id) by {
            if k == added.len() - 1 {
                if has_id(start, last.id) {
                    let m = choose|m: int| 0 <= m < start.len() && (#[trigger] start[m]).id == last.id;
                    assert(before[m].id == last.id);
                }
            } else {
                assert(added[k] == accepted_blobs(init)[k]);
            }
        }
        assert forall|x: int, y: int| 0 <= x < y < added.len() implies added[x].id
            != added[y].id by {
            if y == added.len() - 1 {
                assert(before[start.len() + x] == added[x]);
            } else {
                assert(added[x] == accepted_blobs(init)[x]);
                assert(added[y] == accepted_blobs(init)[y]);
            }
        }
    }
    assert forall|i: int| 0 <= i < calls.len() && (#[trigger] calls[i]).r is Ok implies (
    calls[i].accepted() <==> !has_id(start + accepted_blobs(calls.take(i)), calls[i].id)) by {
        if i < calls.len() - 1 {
            assert(init[i] == calls[i]);
            assert(init.take(i) =~= calls.take(i));
        } else {
            assert(calls.take(i) =~= init);
        }
    }
}

/// Finishing the pending pack and publishing it leaves the stored blobs as they are.
pub proof fn lemma_save_keeps_stored(
    pre: Packer,
    post: Packer,
    indexer: Seq<Seq<IndexBlob>>,
    r: Result<Option<Pack>, Error>,
)
    requires
        Packer::save_post(pre, post, r),
        r is Ok,
    ensures
        stored(
            if r->Ok_0 is Some {
                indexer.push(r->Ok_0->0.index@)
            } else {
                indexer
            },
            post.entries(),
        ) == stored(indexer, pre.entries()),
{
    if r->Ok_0 is Some {
        lemma_published_push(indexer, pre.entries());
        assert(published(indexer) + pre.entries() + Seq::<IndexBlob>::empty() =~= published(indexer)
            + pre.entries());
    }
}

/// The blob that a call added decrypts to the data that the call was given:
/// in the pack that the call finished, or else in the pending pack, where it
/// is the last blob.
pub proof fn lemma_added_blob_decrypts(call: AddCall)
    requires
        call.valid(),
        call.accepted(),
    ensures
        call.r->Ok_0.1 is Some ==> opened(
            call.pre.key(),
            blob_bytes(call.r->Ok_0.1->0.data@, call.blob()),
        ) == Some(call.data),
        call.r->Ok_0.1 is None ==> opened(
            call.post.key(),
            blob_bytes(call.post.bytes(), call.blob()),
        ) == Some(call.data),
{
    let entries = call.pre.entries().push(call.blob());
    let plain = call.pre.plaintexts().push(call.data);
    let last = entries.len() - 1;
    call.pre.lemma_wf();
    assert(entries[last] == call.blob());
    assert(plain[last] == call.data);
    if call.r->Ok_0.1 is None {
        call.post.lemma_wf();
    }
}

/// A pack that a call of `add` finished holds at most as many blobs as the
/// threshold of count allows, if that is at least one. Unless the last blob
/// took it beyond the threshold of size, it is no larger than that threshold,
/// its encrypted header and the four bytes of the trailer together.
pub proof fn lemma_flushed_within_thresholds(call: AddCall)
    requires
        call.valid(),
        call.accepted(),
        call.r->Ok_0.1 is Some,
        call.pre.limits().max_count >= 1,
    ensures
        call.r->Ok_0.1->0.index@.len() <= call.pre.limits().max_count,
        call.r->Ok_0.1->0.data@.len() == call.pre.bytes().len() + (call.data.len() + 32) + (37
            * call.r->Ok_0.1->0.index@.len() + 32) + 4,
        call.pre.bytes().len() + call.data.len() + 32 <= call.pre.limits().max_size
            ==> call.r->Ok_0.1->0.data@.len() <= call.pre.limits().max_size + (37
            * call.r->Ok_0.1->0.index@.len() + 32) + 4,
{
    call.pre.lemma_wf();
    lemma_total_length_push(call.pre.entries(), call.blob());
}

/// A call of `add` that added the blob and finished no pack leaves the
/// pending pack below every threshold: of count, of size, and of age at the
/// time of the call.
pub proof fn lemma_kept_below_thresholds(call: AddCall)
    requires
        call.valid(),
        call.accepted(),
        call.r->Ok_0.1 is None,
    ensures
        call.post.blob_count() < call.post.limits().max_count,
        call.post.bytes().len() < call.post.limits().max_size,
        call.now - call.post.created() < call.post.limits().max_age,
{
}

/// A pack that `save` finished holds fewer blobs than the threshold of count,
/// and is smaller than the threshold of size, its encrypted header and the
/// four bytes of the trailer together.
pub proof fn lemma_saved_within_thresholds(pre: Packer, post: Packer, r: Result<Option<Pack>, Error>)
    requires
        pre.wf(),
        Packer::save_post(pre, post, r),
        r is Ok,
        r->Ok_0 is Some,
    ensures
        r->Ok_0->0.index@.len() < pre.limits().max_count,
        r->Ok_0->0.data@.len() < pre.limits().max_size + (37 * r->Ok_0->0.index@.len() + 32) + 4,
{
    pre.lemma_wf();
}

/// In a finished pack every blob starts where the blobs before it end.
pub proof fn lemma_emitted_offsets(
    key: Seq<u8>,
    entries: Seq<IndexBlob>,
    plain: Seq<Seq<u8>>,
    pack: Pack,
    i: int,
)
    requires
        is_emitted(key, entries, plain, pack),
        0 <= i < pack.index@.len(),
    ensures
        pack.index@[i].offset == total_length(pack.index@.take(i)),
        crate::index::well_formed(pack.index@),
{
    pack.index.lemma_wf();
}

/// A blob that a call added to the pending pack stays where it is, with its
/// plaintext, as long as no call finishes the pack.
pub proof fn lemma_stays_pending(calls: Seq<AddCall>, i: int, k: int)
    requires
        is_run(calls),
        0 <= i <= k < calls.len(),
        calls[i].accepted(),
        forall|m: int| i <= m <= k ==> !(#[trigger] calls[m]).flushed(),
    ensures
        calls[i].pre.entries().len() < calls[k].post.entries().len(),
        calls[k].post.entries()[calls[i].pre.entries().len() as int] == calls[i].blob(),
        calls[k].post.plaintexts()[calls[i].pre.entries().len() as int] == calls[i].data,
        calls[k].post.plaintexts().len() == calls[k].post.entries().len(),
        calls[k].post.key() == calls[i].pre.key(),
    decreases k - i,
{
    let p = calls[i].pre.entries().len() as int;
    assert(calls[k].valid());
    calls[k].pre.lemma_wf();
    calls[k].post.lemma_wf();
    assert(!calls[k].flushed());
    if k == i {
    } else {
        lemma_stays_pending(calls, i, k - 1);
        assert(calls[k - 1 + 1].pre == calls[k - 1].post);
    }
}

/// Every blob that was added comes back from the pack that holds it: where a
/// call added a blob to the pending pack and a later call is the first to
/// finish the pack, the bytes of the pack at the offset of the blob decrypt
/// to the data that the first call was given.
pub proof fn lemma_run_round_trip(calls: Seq<AddCall>, i: int, j: int)
    requires
        is_run(calls),
        0 <= i < j < calls.len(),
        calls[i].accepted(),
        forall|m: int| i <= m < j ==> !(#[trigger] calls[m]).flushed(),
        calls[j].flushed(),
    ensures
        opened(calls[i].pre.key(), blob_bytes(calls[j].r->Ok_0.1->0.data@, calls[i].blob()))
            == Some(calls[i].data),
{
    lemma_stays_pending(calls, i, j - 1);
    assert(calls[j - 1 + 1].pre == calls[j - 1].post);
    assert(calls[j].valid());
    let p = calls[i].pre.entries().len() as int;
    let entries = calls[j].pre.entries().push(calls[j].blob());
    assert(entries[p] == calls[i].blob());
}

/// The same for a pack that `save` finishes after the last call of a run: a
/// blob that was added and is still pending comes back from that pack.
pub proof fn lemma_saved_round_trip(
    calls: Seq<AddCall>,
    i: int,
    post: Packer,
    r: Result<Option<Pack>, Error>,
)
    requires
        is_run(calls),
        0 <= i < calls.len(),
        calls[i].accepted(),
        forall|m: int| i <= m < calls.len() ==> !(#[trigger] calls[m]).flushed(),
        Packer::save_post(calls.last().post, post, r),
        r is Ok,
    ensures
        r->Ok_0 is Some,
        opened(calls[i].pre.key(), blob_bytes(r->Ok_0->0.data@, calls[i].blob())) == Some(
            calls[i].data,
        ),
{
    let last = calls.len() - 1;
    lemma_stays_pending(calls, i, last);
    let pre = calls[last].post;
    let p = calls[i].pre.entries().len() as int;
    pre.lemma_wf();
    calls[i].pre.lemma_wf();
    assert(pre.entries()[p] == calls[i].blob());
    crate::index::lemma_total_length_take(pre.entries(), p);
    crate::index::lemma_total_length_take(pre.entries(), p + 1);
    assert(calls[i].blob().length > 0);
}

/// A finished pack reads back: its bytes are a pack that lists its blobs, so
/// that reading the pack gives the manifest that was handed out with it.
pub proof fn lemma_emitted_reads_back(
    key: Seq<u8>,
    entries: Seq<IndexBlob>,
    plain: Seq<Seq<u8>>,
    pack: Pack,
)
    requires
        is_emitted(key, entries, plain, pack),
    ensures
        pack_lists(key, pack.data@, pack.index@),
        forall|blobs: Seq<IndexBlob>| pack_lists(key, pack.data@, blobs) ==> blobs == pack.index@,
{
    pack.index.lemma_wf();
    assert forall|blobs: Seq<IndexBlob>| pack_lists(key, pack.data@, blobs) implies blobs
        == pack.index@ by {
        lemma_pack_lists_one(key, pack.data@, blobs, pack.index@);
    }
}

} // verus!
