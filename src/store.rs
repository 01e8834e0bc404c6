//! The content-addressed image store: an index of records keyed by content
//! hash over a flat directory of `{hash}.{extension}` files. The store
//! decides; its caller lists the directory and writes and removes files.


use crate::codec::{bytes_view, guess_kind, png_signed, sniffed_kind, ImageKind};
use crate::digest::{calculate_hash, content_hash};
use crate::types::ImageMetadata;
use vstd::prelude::*;

verus! {

/// What the store needs to know of one entry of its directory.
pub struct StoredFile {
    /// The file name, extension included.
    pub name: String,
    /// The file name without its extension.
    pub stem: String,
    pub path: String,
    pub is_file: bool,
    /// The file's bytes, or `None` where it could not be read.
    pub content: Option<Vec<u8>>,
}

/// What `save_image` decided.
pub enum SavePlan {
    /// The content is stored already; nothing is to be written.
    Duplicate(ImageMetadata),
    /// New content: write `bytes` at `record.path`, then hand the record to
    /// `record_saved`.
    Write { record: ImageMetadata, bytes: Vec<u8> },
}

#[derive(Clone, Copy, Debug, PartialEq, Eq, Structural)]
pub enum StoreError {
    /// The payload is in a format that is not kept as it is, and could not
    /// be converted to PNG.
    ConversionFailed,
}

pub struct ImageManager {
    pub storage_dir: String,
    pub images: Vec<ImageMetadata>,
}

/// At most one record per id.
pub open spec fn ids_unique(s: Seq<ImageMetadata>) -> bool {
    forall|i: int, j: int| 0 <= i < j < s.len() ==> s[i].id@ != s[j].id@
}

pub open spec fn has_id(s: Seq<ImageMetadata>, id: Seq<char>) -> bool {
    exists|i: int| 0 <= i < s.len() && s[i].id@ == id
}

/// The position of the record with this id, where there is one.
pub open spec fn index_of(s: Seq<ImageMetadata>, id: Seq<char>) -> int {
    choose|i: int| 0 <= i < s.len() && s[i].id@ == id
}

/// The index once `r` is entered: it replaces a record with its id, or is
/// added at the end.
pub open spec fn with_record(s: Seq<ImageMetadata>, r: ImageMetadata) -> Seq<ImageMetadata> {
    if has_id(s, r.id@) {
        s.update(index_of(s, r.id@), r)
    } else {
        s.push(r)
    }
}

/// The directory entry would count as a copy of `data`, whose hash is
/// `hash`: a readable regular file with the same bytes or the same stem.
pub open spec fn file_matches(f: StoredFile, data: Seq<u8>, hash: Seq<char>) -> bool {
    &&& f.is_file
    &&& f.content is Some
    &&& (f.content->0@ == data || f.stem@ == hash)
}

pub open spec fn any_match(l: Seq<StoredFile>, data: Seq<u8>, hash: Seq<char>) -> bool {
    exists|k: int| 0 <= k < l.len() && file_matches(l[k], data, hash)
}

/// Entry `k` is the first that counts as a copy.
pub open spec fn first_match(l: Seq<StoredFile>, data: Seq<u8>, hash: Seq<char>, k: int) -> bool {
    &&& 0 <= k < l.len()
    &&& file_matches(l[k], data, hash)
    &&& forall|j: int| 0 <= j < k ==> !file_matches(l[j], data, hash)
}

pub open spec fn name_taken(l: Seq<StoredFile>, name: Seq<char>) -> bool {
    exists|k: int| 0 <= k < l.len() && l[k].name@ == name
}

/// The format a payload is filed under; what sniffing does not recognise
/// counts as PNG.
pub open spec fn stored_kind(data: Seq<u8>) -> ImageKind {
    match sniffed_kind(data) {
        Some(k) => k,
        None => ImageKind::Png,
    }
}

/// `{hash}.{extension}`.
pub open spec fn stored_name_for(hash: Seq<char>, data: Seq<u8>) -> Seq<char> {
    hash + seq!['.'] + stored_kind(data).extension_spec()
}

pub open spec fn stored_path_for(dir: Seq<char>, hash: Seq<char>, data: Seq<u8>) -> Seq<char> {
    dir + seq!['/'] + stored_name_for(hash, data)
}

/// The bytes written for a payload: the payload itself where its format is
/// kept as it is, else `converted`, its PNG conversion.
pub open spec fn stored_bytes(data: Seq<u8>, converted: Option<Seq<u8>>) -> Option<Seq<u8>> {
    if stored_kind(data).storable_spec() {
        Some(data)
    } else {
        converted
    }
}

/// Whether a payload is to be converted to PNG before it is written: its
/// sniffed format is not kept as it is. A PNG payload never is.
pub fn conversion_needed(data: &[u8]) -> (r: bool)
    ensures
        r == !stored_kind(data@).storable_spec(),
        png_signed(data@) ==> stored_kind(data@) == ImageKind::Png,
{
    match guess_kind(data) {
        Some(k) => !k.is_storable(),
        None => false,
    }
}

/// The moment `hours` hours before `now`, in seconds.
pub open spec fn cutoff(now: i64, hours: i64) -> int {
    now - hours * 3600
}

/// Records created at or after `threshold` stay.
pub open spec fn stays(threshold: int) -> spec_fn(ImageMetadata) -> bool {
    |m: ImageMetadata| m.created_at >= threshold
}

pub open spec fn expires(threshold: int) -> spec_fn(ImageMetadata) -> bool {
    |m: ImageMetadata| m.created_at < threshold
}

/// Newest first.
pub open spec fn sorted_newest_first(s: Seq<ImageMetadata>) -> bool {
    forall|i: int, j: int| 0 <= i < j < s.len() ==> s[i].created_at >= s[j].created_at
}

pub fn bytes_equal(a: &[u8], b: &[u8]) -> (r: bool)
    ensures
        r == (a@ == b@),
{
    if a.len() != b.len() {
        return false;
    }
    let mut i: usize = 0;
    while i < a.len()
        invariant
            a@.len() == b@.len(),
            i <= a@.len(),
            forall|j: int| 0 <= j < i ==> a@[j] == b@[j],
        decreases a@.len() - i,
    {
        if a[i] != b[i] {
            return false;
        }
        i = i + 1;
    }
    assert(a@ =~= b@);
    true
}

/// Saving the same payload twice: once the record planned for it has been
/// entered, the index holds a record with the payload's hash, so a second
/// save returns that record as a duplicate, and no second file is planned.
pub proof fn lemma_second_save_is_duplicate(
    images: Seq<ImageMetadata>,
    data: Seq<u8>,
    record: ImageMetadata,
)
    requires
        ids_unique(images),
        record.id@ == content_hash(data),
    ensures
        has_id(with_record(images, record), content_hash(data)),
        ids_unique(with_record(images, record)),
{
    let s = with_record(images, record);
    if has_id(images, record.id@) {
        let i = index_of(images, record.id@);
        assert(s[i].id@ == content_hash(data));
    } else {
        assert(s[images.len() as int].id@ == content_hash(data));
    }
}

/// Two payloads with different hashes are kept apart: after the first is
/// entered the second is still unknown to the index, the first one's file
/// does not count as a copy of the second, and entering both leaves two
/// records with their own ids.
pub proof fn lemma_distinct_payloads_kept_apart(
    images: Seq<ImageMetadata>,
    d1: Seq<u8>,
    d2: Seq<u8>,
    r1: ImageMetadata,
    r2: ImageMetadata,
    f1: StoredFile,
)
    requires
        ids_unique(images),
        content_hash(d1) != content_hash(d2),
        !has_id(images, content_hash(d1)),
        !has_id(images, content_hash(d2)),
        r1.id@ == content_hash(d1),
        r2.id@ == content_hash(d2),
        f1.stem@ == content_hash(d1),
        f1.content matches Some(c) && c@ == d1,
    ensures
        !has_id(with_record(images, r1), content_hash(d2)),
        !file_matches(f1, d2, content_hash(d2)),
        with_record(with_record(images, r1), r2) == images.push(r1).push(r2),
        ids_unique(images.push(r1).push(r2)),
{
    let s1 = images.push(r1);
    assert(with_record(images, r1) == s1);
    if has_id(s1, content_hash(d2)) {
        let i = choose|i: int| 0 <= i < s1.len() && s1[i].id@ == content_hash(d2);
        if i < images.len() {
            assert(images[i].id@ == content_hash(d2));
        }
    }
    assert(d1 != d2);
    let s2 = s1.push(r2);
    assert forall|i: int, j: int| 0 <= i < j < s2.len() implies s2[i].id@ != s2[j].id@ by {
        if j == images.len() {
            assert(s2[i] == images[i]);
        } else if j == images.len() + 1 && i < images.len() {
            assert(s2[i] == images[i]);
        }
    }
}

/// Cleaning up with zero hours, at a time after every record was created,
/// takes out every record and leaves the index empty.
pub proof fn lemma_cleanup_zero_hours_empties(images: Seq<ImageMetadata>, now: i64)
    requires
        forall|i: int| 0 <= i < images.len() ==> images[i].created_at < now,
    ensures
        images.filter(stays(cutoff(now, 0))).len() == 0,
        images.filter(expires(cutoff(now, 0))) == images,
    decreases images.len(),
{
    if images.len() > 0 {
        let init = images.drop_last();
        lemma_cleanup_zero_hours_empties(init, now);
        assert(init.push(images.last()) =~= images);
        init.lemma_filter_push(images.last(), stays(cutoff(now, 0)));
        init.lemma_filter_push(images.last(), expires(cutoff(now, 0)));
    } else {
        reveal(Seq::filter);
    }
}

impl ImageManager {
    pub open spec fn wf(&self) -> bool {
        ids_unique(self.images@)
    }

    /// An empty index over the directory `storage_dir`.
    pub fn new(storage_dir: String) -> (r: ImageManager)
        ensures
            r.wf(),
            r.storage_dir == storage_dir,
            r.images@.len() == 0,
    {
        ImageManager { storage_dir, images: Vec::new() }
    }

    /// The position of the record with this id.
    pub fn find(&self, id: &String) -> (r: Option<usize>)
        ensures
            r matches Some(i) ==> i < self.images@.len() && self.images@[i as int].id@ == id@,
            r is None ==> !has_id(self.images@, id@),
    {
        let mut i: usize = 0;
        while i < self.images.len()
            invariant
                i <= self.images@.len(),
                forall|j: int| 0 <= j < i ==> self.images@[j].id@ != id@,
            decreases self.images@.len() - i,
        {
            if self.images[i].id == *id {
                return Some(i);
            }
            i = i + 1;
        }
        None
    }

    /// Enters a record once its file has been written; a record with the
    /// same id is replaced.
    pub fn record_saved(&mut self, record: ImageMetadata)
        requires
            old(self).wf(),
        ensures
            final(self).wf(),
            final(self).storage_dir == old(self).storage_dir,
            final(self).images@ == with_record(old(self).images@, record),
    {
        match self.find(&record.id) {
            Some(i) => {
                proof {
                    let j = index_of(self.images@, record.id@);
                    assert(j == i as int);
                }
                self.images.set(i, record);
            },
            None => {
                self.images.push(record);
            },
        }
    }

    /// Takes the record with this id out of the index and returns it, so
    /// that its file can be removed. An unknown id changes nothing.
    pub fn delete_image(&mut self, id: &String) -> (r: Option<ImageMetadata>)
        requires
            old(self).wf(),
        ensures
            final(self).wf(),
            final(self).storage_dir == old(self).storage_dir,
            !has_id(old(self).images@, id@) ==> r is None && final(self).images@ == old(
                self,
            ).images@,
            has_id(old(self).images@, id@) ==> exists|i: int|
                0 <= i < old(self).images@.len() && old(self).images@[i].id@ == id@ && r == Some(
                    old(self).images@[i],
                ) && final(self).images@ == old(self).images@.remove(i),
            !has_id(final(self).images@, id@),
    {
        match self.find(id) {
            Some(i) => {
                let m = self.images.remove(i);
                assert forall|j: int| 0 <= j < self.images@.len() implies self.images@[j].id@
                    != id@ by {
                    if j >= i {
                        assert(self.images@[j] == old(self).images@[j + 1]);
                    }
                }
                Some(m)
            },
            None => None,
        }
    }

    /// Empties the index and returns the paths of the files it named.
    pub fn clear_all(&mut self) -> (r: Vec<String>)
        ensures
            final(self).wf(),
            final(self).storage_dir == old(self).storage_dir,
            final(self).images@.len() == 0,
            r@.len() == old(self).images@.len(),
            forall|i: int| 0 <= i < r@.len() ==> r@[i]@ == old(self).images@[i].path@,
    {
        let mut paths: Vec<String> = Vec::new();
        let mut i: usize = 0;
        while i < self.images.len()
            invariant
                i <= self.images@.len(),
                paths@.len() == i,
                forall|j: int| 0 <= j < i ==> paths@[j]@ == self.images@[j].path@,
            decreases self.images@.len() - i,
        {
            paths.push(self.images[i].path.clone());
            i = i + 1;
        }
        self.images.clear();
        paths
    }

    /// What saving a payload `data` with content hash `h` comes to, given
    /// the directory entries `l`, its PNG conversion `converted` and the
    /// time `now`.
    pub open spec fn save_decided(
        &self,
        h: Seq<char>,
        data: Seq<u8>,
        converted: Option<Seq<u8>>,
        l: Seq<StoredFile>,
        now: i64,
        r: Result<SavePlan, StoreError>,
    ) -> bool {
        let imgs = self.images@;
        let path = stored_path_for(self.storage_dir@, h, data);
        &&& has_id(imgs, h) ==> (r matches Ok(SavePlan::Duplicate(m)) && imgs.contains(m)
            && m.id@ == h)
        &&& forall|k: int|
            !has_id(imgs, h) && #[trigger] first_match(l, data, h, k) ==> (r matches Ok(
                SavePlan::Duplicate(m),
            ) && m.id@ == l[k].stem@ && (has_id(imgs, l[k].stem@) ==> imgs.contains(m))
                && (!has_id(imgs, l[k].stem@) ==> m.is_fresh(l[k].stem@, l[k].path@, now)))
        &&& !has_id(imgs, h) && !any_match(l, data, h) && name_taken(l, stored_name_for(h, data))
            ==> (r matches Ok(SavePlan::Duplicate(m)) && m.is_fresh(h, path, now))
        &&& !has_id(imgs, h) && !any_match(l, data, h) && !name_taken(
            l,
            stored_name_for(h, data),
        ) ==> match stored_bytes(data, converted) {
            Some(b) => (r matches Ok(SavePlan::Write { record, bytes }) && record.is_fresh(
                h,
                path,
                now,
            ) && bytes@ == b),
            None => r == Err::<SavePlan, StoreError>(StoreError::ConversionFailed),
        }
    }

    /// `save_image` for a payload whose content hash is `hash`.
    pub fn save_image_with_hash(
        &self,
        data: &[u8],
        hash: String,
        converted: Option<Vec<u8>>,
        listing: &Vec<StoredFile>,
        now: i64,
    ) -> (r: Result<SavePlan, StoreError>)
        requires
            self.wf(),
        ensures
            self.save_decided(hash@, data@, bytes_view(converted), listing@, now, r),
    {
        if let Some(i) = self.find(&hash) {
            return Ok(SavePlan::Duplicate(self.images[i].copied()));
        }
        let mut k: usize = 0;
        while k < listing.len()
            invariant
                k <= listing@.len(),
                                !has_id(self.images@, hash@),
                forall|j: int| 0 <= j < k ==> !file_matches(listing@[j], data@, hash@),
            decreases listing@.len() - k,
        {
            let f = &listing[k];
            if f.is_file {
                if let Some(c) = &f.content {
                    if bytes_equal(c.as_slice(), data) || f.stem == hash {
                        assert(first_match(listing@, data@, hash@, k as int));
                        assert(any_match(listing@, data@, hash@));
                        let m = match self.find(&f.stem) {
                            Some(i) => {
                                assert(self.images@.contains(self.images@[i as int]));
                                self.images[i].copied()
                            },
                            None => ImageMetadata::fresh(f.stem.clone(), f.path.clone(), now),
                        };
                        proof {
                            assert forall|k2: int|
                                #[trigger] first_match(listing@, data@, hash@, k2) implies k2
                                == k by {
                                if k2 < k {
                                    assert(!file_matches(listing@[k2], data@, hash@));
                                } else if k2 > k {
                                    assert(!file_matches(listing@[k as int], data@, hash@));
                                }
                            }
                        }
                        return Ok(SavePlan::Duplicate(m));
                    }
                }
            }
            k = k + 1;
        }
        assert(!any_match(listing@, data@, hash@));
        let kind = match guess_kind(data) {
            Some(k) => k,
            None => ImageKind::Png,
        };
        proof {
            reveal_strlit(".");
            reveal_strlit("/");
        }
        let mut name = hash.clone();
        name.append(".");
        name.append(kind.extension());
        let mut path = self.storage_dir.clone();
        path.append("/");
        path.append(name.as_str());
        assert(name@ == stored_name_for(hash@, data@));
        assert(path@ == stored_path_for(self.storage_dir@, hash@, data@));
        let mut t: usize = 0;
        while t < listing.len()
            invariant
                t <= listing@.len(),
                                name@ == stored_name_for(hash@, data@),
                path@ == stored_path_for(self.storage_dir@, hash@, data@),
                !has_id(self.images@, hash@),
                !any_match(listing@, data@, hash@),
                forall|j: int| 0 <= j < t ==> listing@[j].name@ != name@,
            decreases listing@.len() - t,
        {
            if listing[t].name == name {
                assert(name_taken(listing@, stored_name_for(hash@, data@)));
                return Ok(SavePlan::Duplicate(ImageMetadata::fresh(hash, path, now)));
            }
            t = t + 1;
        }
        if kind.is_storable() {
            let bytes = vstd::slice::slice_to_vec(data);
            Ok(SavePlan::Write { record: ImageMetadata::fresh(hash, path, now), bytes })
        } else {
            match converted {
                Some(bytes) => Ok(
                    SavePlan::Write { record: ImageMetadata::fresh(hash, path, now), bytes },
                ),
                None => Err(StoreError::ConversionFailed),
            }
        }
    }

    /// Decides what saving `data` takes, given the directory's entries and
    /// the time now: a record that is there already (in the index, or a
    /// file with the same bytes or hash on disk, or a file of the target
    /// name), or the file to write and its new record. `converted` is the
    /// payload's PNG conversion where `conversion_needed` asked for one and
    /// it succeeded; it is not consulted otherwise.
    pub fn save_image(
        &self,
        data: &[u8],
        converted: Option<Vec<u8>>,
        listing: &Vec<StoredFile>,
        now: i64,
    ) -> (r: Result<SavePlan, StoreError>)
        requires
            self.wf(),
        ensures
            self.save_decided(content_hash(data@), data@, bytes_view(converted), listing@, now, r),
    {
        let hash = calculate_hash(data);
        self.save_image_with_hash(data, hash, converted, listing, now)
    }

    /// All records, newest first; the order of records created in the same
    /// second is not fixed.
    pub fn get_images(&self) -> (r: Vec<ImageMetadata>)
        ensures
            r@.to_multiset() == self.images@.to_multiset(),
            sorted_newest_first(r@),
    {
        broadcast use vstd::seq_lib::group_to_multiset_ensures;

        let mut out: Vec<ImageMetadata> = Vec::new();
        let mut i: usize = 0;
        while i < self.images.len()
            invariant
                i <= self.images@.len(),
                out@.to_multiset() == self.images@.take(i as int).to_multiset(),
                sorted_newest_first(out@),
            decreases self.images@.len() - i,
        {
            let m = self.images[i].copied();
            let mut pos: usize = 0;
            while pos < out.len() && out[pos].created_at >= m.created_at
                invariant
                    pos <= out@.len(),
                    forall|a: int| 0 <= a < pos ==> out@[a].created_at >= m.created_at,
                decreases out@.len() - pos,
            {
                pos = pos + 1;
            }
            let ghost before = out@;
            proof {
                vstd::seq_lib::to_multiset_insert(before, pos as int, m);
                assert(self.images@.take(i + 1) =~= self.images@.take(i as int).push(
                    self.images@[i as int],
                ));
            }
            out.insert(pos, m);
            proof {
                let tk = self.images@.take(i as int);
                vstd::seq_lib::to_multiset_build(tk, m);
                assert(out@ == before.insert(pos as int, m));
            }
            assert forall|a: int, b: int| 0 <= a < b < out@.len() implies out@[a].created_at
                >= out@[b].created_at by {
                if b < pos {
                } else if b == pos {
                } else if a < pos {
                    assert(before[pos as int].created_at < m.created_at);
                    assert(out@[b] == before[b - 1]);
                    if b - 1 > pos {
                        assert(before[pos as int].created_at >= before[b - 1].created_at);
                    }
                } else if a == pos {
                    assert(out@[b] == before[b - 1]);
                    assert(before[pos as int].created_at < m.created_at);
                    if b - 1 > pos {
                        assert(before[pos as int].created_at >= before[b - 1].created_at);
                    }
                } else {
                    assert(out@[a] == before[a - 1]);
                    assert(out@[b] == before[b - 1]);
                }
            }
            i = i + 1;
        }
        assert(self.images@.take(self.images@.len() as int) =~= self.images@);
        out
    }

    /// Takes every record created more than `hours` hours before `now` out
    /// of the index and returns them, in index order, so that their files
    /// can be removed.
    pub fn cleanup_old_images(&mut self, hours: i64, now: i64) -> (r: Vec<ImageMetadata>)
        requires
            old(self).wf(),
        ensures
            final(self).wf(),
            final(self).storage_dir == old(self).storage_dir,
            final(self).images@ == old(self).images@.filter(stays(cutoff(now, hours))),
            r@ == old(self).images@.filter(expires(cutoff(now, hours))),
    {
        let threshold: i128 = now as i128 - (hours as i128) * 3600;
        let ghost t = cutoff(now, hours);
        let ghost imgs = self.images@;
        let mut kept: Vec<ImageMetadata> = Vec::new();
        let mut removed: Vec<ImageMetadata> = Vec::new();
        let mut i: usize = 0;
        while i < self.images.len()
            invariant
                imgs == self.images@,
                ids_unique(imgs),
                threshold == t,
                i <= imgs.len(),
                kept@ == imgs.take(i as int).filter(stays(t)),
                removed@ == imgs.take(i as int).filter(expires(t)),
                ids_unique(kept@),
                forall|a: int|
                    0 <= a < kept@.len() ==> exists|j: int|
                        0 <= j < i && #[trigger] kept@[a].id@ == imgs[j].id@,
            decreases imgs.len() - i,
        {
            let m = self.images[i].copied();
            proof {
                let tk = imgs.take(i as int);
                assert(imgs.take(i + 1) =~= tk.push(m));
                tk.lemma_filter_push(m, stays(t));
                tk.lemma_filter_push(m, expires(t));
            }
            if (m.created_at as i128) < threshold {
                removed.push(m);
            } else {
                let ghost k0 = kept@;
                kept.push(m);
                proof {
                    assert forall|a: int, b: int| 0 <= a < b < kept@.len() implies kept@[a].id@
                        != kept@[b].id@ by {
                        if b == kept@.len() - 1 {
                            let j = choose|j: int| 0 <= j < i && #[trigger] k0[a].id@ == imgs[j].id@;
                            assert(imgs[j].id@ != imgs[i as int].id@);
                        }
                    }
                    assert forall|a: int| 0 <= a < kept@.len() implies exists|j: int|
                        0 <= j < i + 1 && #[trigger] kept@[a].id@ == imgs[j].id@ by {
                        if a == kept@.len() - 1 {
                            assert(kept@[a].id@ == imgs[i as int].id@);
                        } else {
                            let j = choose|j: int| 0 <= j < i && #[trigger] k0[a].id@ == imgs[j].id@;
                            assert(kept@[a].id@ == imgs[j].id@);
                        }
                    }
                }
            }
            i = i + 1;
        }
        assert(imgs.take(imgs.len() as int) =~= imgs);
        self.images = kept;
        removed
    }
}

} // verus!
