//! The clipboard poller's decisions. Each tick its driver opens the
//! clipboard, copies out what is offered into a `ClipboardSnapshot`, closes
//! it again, and hands the snapshot here; what comes back is the payload to
//! store, if any.

use crate::bitmap::{dib_result, extract_image_from_dib, extract_image_from_dibv5, DibVariant};
use crate::codec::bytes_view;
use crate::digest::{calculate_hash, content_hash};
use crate::files::{extract_image_from_files, files_image, DroppedFile};
use crate::types::{ClipboardEvent, ImageMetadata};
use vstd::prelude::*;

verus! {

/// Detections closer together than this many milliseconds count as one.
pub const CLIPBOARD_COOLDOWN_MS: u64 = 2000;

/// Interval between two polls, in milliseconds.
pub const POLL_INTERVAL_MS: u64 = 200;

/// What the clipboard offered in one tick, in the forms the poller reads.
pub struct ClipboardSnapshot {
    /// Paths of a file list, with the bytes of those read.
    pub files: Option<Vec<DroppedFile>>,
    /// A bitmap with the extended header.
    pub dibv5: Option<Vec<u8>>,
    /// A bitmap with the legacy header.
    pub dib: Option<Vec<u8>>,
}

/// The image a snapshot yields: from the file list first, then the extended
/// bitmap, then the legacy one. A device bitmap handle yields nothing.
pub open spec fn snapshot_image(s: ClipboardSnapshot) -> Option<Seq<u8>> {
    let from_files = match s.files {
        Some(f) => files_image(f@),
        None => None,
    };
    let from_v5 = match s.dibv5 {
        Some(d) => dib_result(d@, DibVariant::V5),
        None => None,
    };
    let from_dib = match s.dib {
        Some(d) => dib_result(d@, DibVariant::Legacy),
        None => None,
    };
    if from_files is Some {
        from_files
    } else if from_v5 is Some {
        from_v5
    } else {
        from_dib
    }
}

/// Detection state: the hash of the last accepted image and when it came.
pub struct ClipboardListener {
    pub last_hash: Option<String>,
    /// Milliseconds since the Unix epoch.
    pub last_detection_time: u64,
}

pub open spec fn is_last(last: Option<String>, hash: Seq<char>) -> bool {
    match last {
        Some(s) => s@ == hash,
        None => false,
    }
}

/// `after` is the state once a detection of `hash` at `now` has been
/// decided on in state `before`.
pub open spec fn detected(before: ClipboardListener, after: ClipboardListener, hash: Seq<char>, now: u64) -> bool {
    if before.accepts(hash, now) {
        after.took(hash, now)
    } else {
        after == before
    }
}

impl ClipboardListener {
    /// A detection of `hash` at `now` is taken: the cooldown since the last
    /// accepted one has passed and the content differs from it.
    pub open spec fn accepts(self, hash: Seq<char>, now: u64) -> bool {
        &&& now >= self.last_detection_time + CLIPBOARD_COOLDOWN_MS
        &&& !is_last(self.last_hash, hash)
    }

    /// The state after accepting `hash` at `now`.
    pub open spec fn took(self, hash: Seq<char>, now: u64) -> bool {
        &&& self.last_hash matches Some(s) && s@ == hash
        &&& self.last_detection_time == now
    }

    pub fn new() -> (r: ClipboardListener)
        ensures
            r.last_hash is None,
            r.last_detection_time == 0,
    {
        ClipboardListener { last_hash: None, last_detection_time: 0 }
    }

    /// Forgets the last hash, so that the same content can be taken again;
    /// the time of the last detection stays.
    pub fn reset_hash(&mut self)
        ensures
            final(self).last_hash is None,
            final(self).last_detection_time == old(self).last_detection_time,
    {
        self.last_hash = None;
    }

    /// Decides on a detection of content with hash `hash` at `now` and
    /// records it where it is taken.
    pub fn on_detection(&mut self, hash: String, now: u64) -> (accepted: bool)
        ensures
            accepted == old(self).accepts(hash@, now),
            detected(*old(self), *final(self), hash@, now),
            accepted ==> final(self).took(hash@, now),
            !accepted ==> *final(self) == *old(self),
    {
        if (now as u128) < (self.last_detection_time as u128) + (CLIPBOARD_COOLDOWN_MS as u128) {
            return false;
        }
        let same = match &self.last_hash {
            Some(s) => *s == hash,
            None => false,
        };
        if same {
            return false;
        }
        self.last_hash = Some(hash);
        self.last_detection_time = now;
        true
    }

    /// One tick: the image the snapshot yields, if it is taken as a new
    /// detection at `now`. The caller stores what comes back.
    pub fn poll_cycle(&mut self, snapshot: &ClipboardSnapshot, now: u64) -> (r: Option<Vec<u8>>)
        ensures
            snapshot_image(*snapshot) is None ==> r is None && *final(self) == *old(self),
            snapshot_image(*snapshot) matches Some(b) ==> {
                &&& old(self).accepts(content_hash(b), now) ==> bytes_view(r) == Some(b)
                    && final(self).took(content_hash(b), now)
                &&& !old(self).accepts(content_hash(b), now) ==> r is None && *final(self)
                    == *old(self)
            },
    {
        let data = match extract_image(snapshot) {
            Some(d) => d,
            None => return None,
        };
        let hash = calculate_hash(data.as_slice());
        if self.on_detection(hash, now) {
            Some(data)
        } else {
            None
        }
    }
}

/// The image a snapshot yields, trying its forms in priority order.
pub fn extract_image(snapshot: &ClipboardSnapshot) -> (r: Option<Vec<u8>>)
    ensures
        bytes_view(r) == snapshot_image(*snapshot),
{
    let mut image: Option<Vec<u8>> = None;
    if let Some(files) = &snapshot.files {
        image = extract_image_from_files(files);
    }
    if image.is_none() {
        if let Some(d) = &snapshot.dibv5 {
            image = extract_image_from_dibv5(d.as_slice());
        }
    }
    if image.is_none() {
        if let Some(d) = &snapshot.dib {
            image = extract_image_from_dib(d.as_slice());
        }
    }
    image
}

/// The event sent once a taken image has been saved: only a newly stored
/// image is announced, with its path; a duplicate is not.
pub fn update_event(record: &ImageMetadata, is_duplicate: bool) -> (r: Option<ClipboardEvent>)
    ensures
        is_duplicate ==> r is None,
        !is_duplicate ==> (r matches Some(e) && e.image_path@ == record.path@),
{
    if is_duplicate {
        None
    } else {
        Some(ClipboardEvent::new(record.path.clone()))
    }
}

/// Cooldown: of two detections less than the cooldown apart, at most one is
/// taken; a third detection of other content, a cooldown after both, is
/// taken.
pub proof fn lemma_cooldown(
    s0: ClipboardListener,
    s1: ClipboardListener,
    s2: ClipboardListener,
    h1: Seq<char>,
    t1: u64,
    h2: Seq<char>,
    t2: u64,
    h3: Seq<char>,
    t3: u64,
)
    requires
        s0.last_detection_time <= t1 <= t2 < t1 + CLIPBOARD_COOLDOWN_MS,
        t2 + CLIPBOARD_COOLDOWN_MS <= t3,
        h3 != h1,
        h3 != h2,
        !is_last(s0.last_hash, h3),
        detected(s0, s1, h1, t1),
        detected(s1, s2, h2, t2),
    ensures
        !(s0.accepts(h1, t1) && s1.accepts(h2, t2)),
        s2.accepts(h3, t3),
{
}

/// After the hash is reset, the content seen last is taken again once the
/// cooldown has passed.
pub proof fn lemma_reset_allows_same_content(
    s: ClipboardListener,
    reset: ClipboardListener,
    h: Seq<char>,
    now: u64,
)
    requires
        reset.last_hash is None,
        reset.last_detection_time == s.last_detection_time,
        s.last_detection_time + CLIPBOARD_COOLDOWN_MS <= now,
    ensures
        reset.accepts(h, now),
{
}

} // verus!
