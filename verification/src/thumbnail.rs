//! Bookkeeping of the thumbnail cache: which paths have an image, which are
//! being loaded, and which file kinds are treated as videos.
use vstd::prelude::*;
use vstd::hash_map::StringHashMap;
use vstd::hash_set::StringHashSet;
use crate::paths::{path_key, path_key_of};
use crate::text::{chars_of, push_str};

verus! {

/// The abstract cache: the images held and the loads running, each by the
/// key of its path (`path_key_of`), so that two ways of writing one path
/// share an entry.
pub ghost struct CacheView<T> {
    pub images: Map<Seq<char>, T>,
    pub loading: Set<Seq<char>>,
}

/// What a request for a path's thumbnail leads to.
#[derive(Clone, Copy, PartialEq, Eq, Structural, Debug)]
pub enum LoadStep {
    /// The image is in the cache.
    Cached,
    /// Nothing is held or pending for the path: a load starts now.
    Start,
    /// A load for the path is already running.
    Pending,
}

impl<T> CacheView<T> {
    /// A finished load: its image, if any, is kept, and the path is no
    /// longer loading.
    pub open spec fn receive(self, path: Seq<char>, image: Option<T>) -> CacheView<T> {
        CacheView {
            images: match image {
                Some(img) => self.images.insert(path, img),
                None => self.images,
            },
            loading: self.loading.remove(path),
        }
    }

    pub open spec fn step_result(self, path: Seq<char>) -> LoadStep {
        if self.images.contains_key(path) {
            LoadStep::Cached
        } else if self.loading.contains(path) {
            LoadStep::Pending
        } else {
            LoadStep::Start
        }
    }

    /// A request: a path neither held nor loading starts loading.
    pub open spec fn step(self, path: Seq<char>) -> CacheView<T> {
        if self.step_result(path) == LoadStep::Start {
            CacheView { images: self.images, loading: self.loading.insert(path) }
        } else {
            self
        }
    }

    pub open spec fn empty() -> CacheView<T> {
        CacheView { images: Map::empty(), loading: Set::empty() }
    }
}

/// The thumbnail cache: images by path key, with the keys whose load runs.
#[verifier::reject_recursive_types(T)]
pub struct ThumbnailCache<T> {
    images: StringHashMap<T>,
    loading: StringHashSet,
}

impl<T> View for ThumbnailCache<T> {
    type V = CacheView<T>;

    closed spec fn view(&self) -> CacheView<T> {
        CacheView { images: self.images@, loading: self.loading@ }
    }
}

impl<T> ThumbnailCache<T> {
    pub fn new() -> (c: ThumbnailCache<T>)
        ensures
            c@ == CacheView::<T>::empty(),
    {
        ThumbnailCache { images: StringHashMap::new(), loading: StringHashSet::new() }
    }

    /// Forgets every image and every pending load.
    pub fn clear(&mut self)
        ensures
            final(self)@ == CacheView::<T>::empty(),
    {
        self.images.clear();
        self.loading.clear();
    }

    /// Takes the result of a finished load of `path` (see `CacheView::receive`).
    pub fn receive(&mut self, path: String, image: Option<T>)
        ensures
            final(self)@ == old(self)@.receive(path_key_of(path@), image),
    {
        let key = path_key(path.as_str());
        self.loading.remove(key.as_str());
        match image {
            Some(img) => self.images.insert(key, img),
            None => {},
        }
    }

    /// Requests the thumbnail of `path` (see `CacheView::step`); the result
    /// says whether it is cached, whether a load must start now, or whether
    /// one is already running.
    pub fn step(&mut self, path: &String) -> (r: LoadStep)
        ensures
            r == old(self)@.step_result(path_key_of(path@)),
            final(self)@ == old(self)@.step(path_key_of(path@)),
    {
        let key = path_key(path.as_str());
        if self.images.contains_key(key.as_str()) {
            LoadStep::Cached
        } else if self.loading.contains(key.as_str()) {
            LoadStep::Pending
        } else {
            self.loading.insert(key);
            LoadStep::Start
        }
    }

    /// The image held for `path`.
    pub fn lookup(&self, path: &String) -> (r: Option<&T>)
        ensures
            match r {
                Some(img) => self@.images.contains_key(path_key_of(path@)) && *img == self@.images[path_key_of(path@)],
                None => !self@.images.contains_key(path_key_of(path@)),
            },
    {
        let key = path_key(path.as_str());
        self.images.get(key.as_str())
    }
}

/// A loaded image is served from then on, and its path is no longer loading.
pub proof fn lemma_receive_then_cached<T>(c: CacheView<T>, path: Seq<char>, img: T)
    ensures
        c.receive(path, Some(img)).images[path] == img,
        c.receive(path, Some(img)).step_result(path) == LoadStep::Cached,
        !c.receive(path, Some(img)).loading.contains(path),
{
}

/// A finished load concerns its own path alone: every other path keeps its
/// image and its pending load, so a request for it is answered as before;
/// and a load that brought no image leaves the images as they were.
pub proof fn lemma_receive_touches_only_its_path<T>(c: CacheView<T>, path: Seq<char>, image: Option<T>, q: Seq<char>)
    requires
        q != path,
    ensures
        c.receive(path, image).loading.contains(q) == c.loading.contains(q),
        c.receive(path, image).images.contains_key(q) == c.images.contains_key(q),
        c.images.contains_key(q) ==> c.receive(path, image).images[q] == c.images[q],
        c.receive(path, image).step_result(q) == c.step_result(q),
        !c.receive(path, image).loading.contains(path),
        image is None ==> c.receive(path, image).images == c.images,
{
}

/// A request answers from what is held: Cached exactly when an image is
/// held for the path, Pending exactly when none is but its load runs, Start
/// otherwise; only a Start adds a pending load, of that path alone, and no
/// request changes the images.
pub proof fn lemma_step_cases<T>(c: CacheView<T>, path: Seq<char>, q: Seq<char>)
    ensures
        (c.step_result(path) == LoadStep::Cached) == c.images.contains_key(path),
        (c.step_result(path) == LoadStep::Pending) == (!c.images.contains_key(path) && c.loading.contains(path)),
        c.step(path).images == c.images,
        c.step(path).loading.contains(q) == (c.loading.contains(q) || (q == path && c.step_result(path) == LoadStep::Start)),
{
}

/// A load starts at most once: right after a request started one, a second
/// request for the same path finds it pending.
pub proof fn lemma_start_once<T>(c: CacheView<T>, path: Seq<char>)
    requires
        c.step_result(path) == LoadStep::Start,
    ensures
        c.step(path).step_result(path) == LoadStep::Pending,
        c.step(path).step(path) == c.step(path),
{
}

/// A failed load leaves nothing cached for the path, so the next request
/// starts a new load.
pub proof fn lemma_failed_load_retries<T>(c: CacheView<T>, path: Seq<char>)
    requires
        !c.images.contains_key(path),
    ensures
        c.receive(path, None).step_result(path) == LoadStep::Start,
{
}

/// What happens to the cache between two clears: a finished load of a path
/// with its image, if any (`Some`), or a request for a path (`None`).
pub open spec fn apply_events<T>(c: CacheView<T>, events: Seq<(Seq<char>, Option<Option<T>>)>) -> CacheView<T>
    decreases events.len(),
{
    if events.len() == 0 {
        c
    } else {
        let before = apply_events(c, events.drop_last());
        let (path, ev) = events.last();
        match ev {
            Some(image) => before.receive(path, image),
            None => before.step(path),
        }
    }
}

/// A cached image is never evicted by later loads or requests: until the
/// next clear, every request for its path finds it cached and starts no load.
pub proof fn lemma_cached_stays<T>(c: CacheView<T>, events: Seq<(Seq<char>, Option<Option<T>>)>, path: Seq<char>)
    requires
        c.images.contains_key(path),
    ensures
        apply_events(c, events).images.contains_key(path),
        apply_events(c, events).step_result(path) == LoadStep::Cached,
        apply_events(c, events).step(path) == apply_events(c, events),
    decreases events.len(),
{
    if events.len() > 0 {
        lemma_cached_stays(c, events.drop_last(), path);
    }
}

/// After a clear, only finished loads put anything in the cache: a path is
/// cached exactly when a load of it has since finished with an image, and
/// otherwise a request for it starts a new load, unless one was requested
/// since and has not finished.
pub proof fn lemma_after_clear<T>(events: Seq<(Seq<char>, Option<Option<T>>)>, path: Seq<char>)
    ensures
        apply_events(CacheView::<T>::empty(), events).images.contains_key(path)
            <==> exists|i: int| 0 <= i < events.len() && #[trigger] events[i].0 == path && events[i].1 matches Some(Some(_)),
        (forall|i: int| 0 <= i < events.len() ==> #[trigger] events[i].0 != path)
            ==> apply_events(CacheView::<T>::empty(), events).step_result(path) == LoadStep::Start,
    decreases events.len(),
{
    if events.len() > 0 {
        let init = events.drop_last();
        lemma_after_clear(init, path);
        let before = apply_events(CacheView::<T>::empty(), init);
        if exists|i: int| 0 <= i < init.len() && #[trigger] init[i].0 == path && init[i].1 matches Some(Some(_)) {
            let i = choose|i: int| 0 <= i < init.len() && #[trigger] init[i].0 == path && init[i].1 matches Some(Some(_));
            assert(events[i] == init[i]);
        }
        if exists|i: int| 0 <= i < events.len() && #[trigger] events[i].0 == path && events[i].1 matches Some(Some(_)) {
            let i = choose|i: int| 0 <= i < events.len() && #[trigger] events[i].0 == path && events[i].1 matches Some(Some(_));
            if i < init.len() {
                assert(init[i] == events[i]);
            }
        }
        if forall|i: int| 0 <= i < events.len() ==> #[trigger] events[i].0 != path {
            assert forall|i: int| 0 <= i < init.len() implies #[trigger] init[i].0 != path by {
                assert(init[i] == events[i]);
            }
            assert(events[events.len() - 1].0 != path);
        }
    }
}

/// A request that finds nothing cached leaves a load of the path pending,
/// and the pending loads form a set: one per path at most.
pub proof fn lemma_request_leaves_pending<T>(c: CacheView<T>, path: Seq<char>)
    requires
        !c.images.contains_key(path),
    ensures
        c.step_result(path) != LoadStep::Cached,
        c.step(path).loading.contains(path),
        c.step(path).loading == c.loading.insert(path),
{
    if c.loading.contains(path) {
        assert(c.loading.insert(path) =~= c.loading);
    }
}

/// The ASCII lower-case form of a character (as `to_ascii_lowercase`).
pub open spec fn ascii_lower(c: char) -> char {
    if 'A' <= c && c <= 'Z' { (((c as u32) + 32) as u8) as char } else { c }
}

pub open spec fn ascii_lower_all(s: Seq<char>) -> Seq<char> {
    s.map_values(|c: char| ascii_lower(c))
}

/// The extensions of the files thumbnailed through a video frame.
pub open spec fn video_extensions() -> Seq<Seq<char>> {
    seq![seq!['m', 'p', '4'], seq!['a', 'v', 'i'], seq!['m', 'k', 'v'], seq!['m', 'o', 'v'],
        seq!['w', 'm', 'v'], seq!['f', 'l', 'v']]
}

fn ascii_lower_char(c: char) -> (r: char)
    ensures
        r == ascii_lower(c),
{
    if 'A' <= c && c <= 'Z' {
        let b = (c as u8) + 32;
        b as char
    } else {
        c
    }
}

/// Whether a file with extension `ext` is a video, ignoring ASCII case.
pub fn is_video_extension(ext: &str) -> (b: bool)
    ensures
        b == video_extensions().contains(ascii_lower_all(ext@)),
{
    let chars = chars_of(ext);
    let mut lower: Vec<char> = Vec::new();
    let mut i: usize = 0;
    while i < chars.len()
        invariant
            i <= chars@.len(),
            lower@ == ascii_lower_all(chars@.take(i as int)),
        decreases chars@.len() - i,
    {
        lower.push(ascii_lower_char(chars[i]));
        assert(ascii_lower_all(chars@.take(i + 1)) == ascii_lower_all(chars@.take(i as int)).push(ascii_lower(chars@[i as int])));
        i = i + 1;
    }
    assert(chars@.take(chars@.len() as int) == chars@);
    let l = lower.len();
    let found = l == 3 && (
        (lower[0] == 'm' && lower[1] == 'p' && lower[2] == '4')
        || (lower[0] == 'a' && lower[1] == 'v' && lower[2] == 'i')
        || (lower[0] == 'm' && lower[1] == 'k' && lower[2] == 'v')
        || (lower[0] == 'm' && lower[1] == 'o' && lower[2] == 'v')
        || (lower[0] == 'w' && lower[1] == 'm' && lower[2] == 'v')
        || (lower[0] == 'f' && lower[1] == 'l' && lower[2] == 'v'));
    proof {
        let v = video_extensions();
        let x = lower@;
        if found {
            if x[0] == 'm' && x[1] == 'p' {
                assert(x == v[0]);
            } else if x[0] == 'a' {
                assert(x == v[1]);
            } else if x[0] == 'm' && x[1] == 'k' {
                assert(x == v[2]);
            } else if x[0] == 'm' && x[1] == 'o' {
                assert(x == v[3]);
            } else if x[0] == 'w' {
                assert(x == v[4]);
            } else {
                assert(x == v[5]);
            }
        } else {
            assert forall|k: int| 0 <= k < v.len() implies v[k] != x by {
                if v[k] == x {
                    assert(v[k].len() == 3);
                }
            }
        }
    }
    found
}

/// The name of the frame a video thumbnail is extracted to: `temp_thumb_<file name>.png`.
pub open spec fn frame_file_name(file_name: Seq<char>) -> Seq<char> {
    seq!['t', 'e', 'm', 'p', '_', 't', 'h', 'u', 'm', 'b', '_'] + file_name + seq!['.', 'p', 'n', 'g']
}

pub fn frame_file(file_name: &str) -> (r: String)
    ensures
        r@ == frame_file_name(file_name@),
{
    let mut r = String::new();
    push_str(&mut r, "temp_thumb_");
    proof { reveal_strlit("temp_thumb_"); }
    push_str(&mut r, file_name);
    push_str(&mut r, ".png");
    proof { reveal_strlit(".png"); }
    r
}

} // verus!
