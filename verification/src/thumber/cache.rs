//! The cache of fetched images, keyed by a hash of their URL.
use vstd::prelude::*;
use crate::hashing::{hash_text, text_hash};

verus! {

#[verifier::external_type_specification]
#[verifier::external_body]
#[verifier::reject_recursive_types(K)]
#[verifier::reject_recursive_types(V)]
#[verifier::reject_recursive_types(S)]
pub struct ExLruCache<K, V, S>(lru::LruCache<K, V, S>);

#[verifier::external_type_specification]
#[verifier::external_body]
pub struct ExLruHasher(lru::DefaultHasher);

/// The LRU cache of image bytes by URL hash.
pub type ImageLru = lru::LruCache<u64, Vec<u8>>;

/// The images an LRU cache holds, by key.
pub uninterp spec fn lru_contents(c: ImageLru) -> Map<u64, Seq<u8>>;

/// The capacity an LRU cache was made with.
pub uninterp spec fn lru_capacity(c: ImageLru) -> nat;

/// The keys an LRU cache holds, from the least recently used to the most
/// recently used (its list of entries, read from the tail to the head).
pub uninterp spec fn lru_order(c: ImageLru) -> Seq<u64>;

/// A well-kept cache: its order lists each key it holds once, and nothing
/// else, and it holds at most its capacity.
pub open spec fn lru_wf(c: ImageLru) -> bool {
    &&& lru_order(c).no_duplicates()
    &&& forall|k: u64| lru_contents(c).contains_key(k) <==> #[trigger] lru_order(c).contains(k)
    &&& lru_order(c).len() <= lru_capacity(c)
}

/// `order` with `k` made the most recently used: moved to the end where it
/// is there, else added at the end.
pub open spec fn touched(order: Seq<u64>, k: u64) -> Seq<u64> {
    if order.contains(k) {
        order.remove(order.index_of(k)).push(k)
    } else {
        order.push(k)
    }
}

/// Calls `lru::LruCache::new`: an empty cache of capacity `cap`.
#[verifier::external_body]
fn lru_new(cap: usize) -> (cache: ImageLru)
    ensures
        lru_contents(cache).dom() == Set::<u64>::empty(),
        lru_order(cache).len() == 0,
        lru_capacity(cache) == cap,
{
    lru::LruCache::new(cap)
}

/// Calls `lru::LruCache::get_mut` and copies the value out. What the cache
/// holds stays the same; a key found becomes the most recently used.
#[verifier::external_body]
fn lru_get(c: &mut ImageLru, k: u64) -> (r: Option<Vec<u8>>)
    requires
        lru_wf(*old(c)),
    ensures
        lru_wf(*final(c)),
        lru_contents(*final(c)) == lru_contents(*old(c)),
        lru_capacity(*final(c)) == lru_capacity(*old(c)),
        match r {
            Some(v) => lru_contents(*old(c)).contains_key(k) && v@ == lru_contents(*old(c))[k]
                && lru_order(*final(c)) == touched(lru_order(*old(c)), k),
            None => !lru_contents(*old(c)).contains_key(k) && lru_order(*final(c)) == lru_order(*old(c)),
        },
{
    c.get_mut(&k).map(|v| v.clone())
}

/// What a put of `v` under `k` makes of a cache holding `contents` in the
/// recency order `order`, with capacity `cap`: a cache of capacity 0 stays
/// as it is; else the key gets the value and becomes the most recently used,
/// and where the key is new and the cache full, the least recently used
/// entry leaves first.
pub open spec fn after_put(contents: Map<u64, Seq<u8>>, order: Seq<u64>, cap: nat, k: u64, v: Seq<u8>) -> (Map<u64, Seq<u8>>, Seq<u64>) {
    if cap == 0 {
        (contents, order)
    } else if contents.contains_key(k) || order.len() < cap {
        (contents.insert(k, v), touched(order, k))
    } else {
        (contents.remove(order[0]).insert(k, v), order.drop_first().push(k))
    }
}

/// Calls `lru::LruCache::put`, which does what `after_put` says: at
/// capacity 0 it returns at once; a present key is updated and moved to the
/// head of the list; a new key in a full cache takes the node of the tail.
#[verifier::external_body]
fn lru_put(c: &mut ImageLru, k: u64, v: Vec<u8>)
    requires
        lru_wf(*old(c)),
    ensures
        lru_wf(*final(c)),
        lru_capacity(*final(c)) == lru_capacity(*old(c)),
        (lru_contents(*final(c)), lru_order(*final(c)))
            == after_put(lru_contents(*old(c)), lru_order(*old(c)), lru_capacity(*old(c)), k, v@),
{
    c.put(k, v);
}

/// What serving an image asks for next: nothing where it is cached, else
/// a fetch of its URL.
pub enum ImageStep {
    /// The cached image.
    Cached(Vec<u8>),
    /// The decoded URL to fetch the image from.
    Fetch(String),
}

/// Fetched images, by the hash of their URL, with least recently used ones
/// evicted beyond the capacity.
pub struct ImageCache {
    cache: ImageLru,
}

impl ImageCache {
    /// The images held, by URL hash.
    pub closed spec fn contents(&self) -> Map<u64, Seq<u8>> {
        lru_contents(self.cache)
    }

    /// The hashes of the images held, from the least recently used to the
    /// most recently used.
    pub closed spec fn recency(&self) -> Seq<u64> {
        lru_order(self.cache)
    }

    pub closed spec fn capacity(&self) -> nat {
        lru_capacity(self.cache)
    }

    /// The cache lists each image it holds once in its recency order, and
    /// holds no more than its capacity.
    #[verifier::type_invariant]
    closed spec fn well_kept(&self) -> bool {
        lru_wf(self.cache)
    }

    /// An empty cache for at most `cap` images.
    pub fn new(cap: usize) -> (c: Self)
        ensures
            c.contents() == Map::<u64, Seq<u8>>::empty(),
            c.recency() == Seq::<u64>::empty(),
            c.capacity() == cap,
    {
        let cache = lru_new(cap);
        assert(lru_contents(cache) =~= Map::<u64, Seq<u8>>::empty());
        assert(lru_order(cache) =~= Seq::<u64>::empty());
        ImageCache { cache }
    }

    /// The image cached for `url`, if any; a hit makes it the most recently
    /// used.
    pub fn lookup(&mut self, url: &str) -> (r: Option<Vec<u8>>)
        ensures
            final(self).contents() == old(self).contents(),
            final(self).capacity() == old(self).capacity(),
            match r {
                Some(v) => old(self).contents().contains_key(text_hash(url@)) && v@ == old(self).contents()[text_hash(url@)]
                    && final(self).recency() == touched(old(self).recency(), text_hash(url@)),
                None => !old(self).contents().contains_key(text_hash(url@)) && final(self).recency() == old(self).recency(),
            },
    {
        proof {
            use_type_invariant(&*self);
        }
        let h = hash_text(url);
        let mut cache = lru_new(0);
        std::mem::swap(&mut cache, &mut self.cache);
        let r = lru_get(&mut cache, h);
        self.cache = cache;
        r
    }

    /// Caches `data` as the image of `url`, as the most recently used; where
    /// the cache is full and holds no image of that hash, the least recently
    /// used image leaves.
    pub fn store(&mut self, url: &str, data: Vec<u8>)
        ensures
            final(self).capacity() == old(self).capacity(),
            (final(self).contents(), final(self).recency())
                == after_put(old(self).contents(), old(self).recency(), old(self).capacity(), text_hash(url@), data@),
    {
        proof {
            use_type_invariant(&*self);
        }
        let h = hash_text(url);
        let mut cache = lru_new(0);
        std::mem::swap(&mut cache, &mut self.cache);
        lru_put(&mut cache, h, data);
        self.cache = cache;
    }

    /// The first step of serving the image that a request path names: its
    /// URL is percent-decoded, and the cached image comes back where there
    /// is one (it becomes the most recently used); else the URL is to be
    /// fetched.
    pub fn begin(&mut self, path_url: &str) -> (step: ImageStep)
        ensures
            final(self).contents() == old(self).contents(),
            final(self).capacity() == old(self).capacity(),
            ({
                let h = text_hash(crate::thumber::percent_decoded(path_url@));
                match step {
                    ImageStep::Cached(v) => old(self).contents().contains_key(h) && v@ == old(self).contents()[h]
                        && final(self).recency() == touched(old(self).recency(), h),
                    ImageStep::Fetch(u) => !old(self).contents().contains_key(h)
                        && u@ == crate::thumber::percent_decoded(path_url@)
                        && final(self).recency() == old(self).recency(),
                }
            }),
    {
        let url = crate::thumber::image_url(path_url);
        match self.lookup(url.as_str()) {
            Some(data) => ImageStep::Cached(data),
            None => ImageStep::Fetch(url),
        }
    }

    /// The last step, once the image of `url` was fetched: it is cached as
    /// `store` does, and served as it came.
    pub fn fetched(&mut self, url: &str, data: Vec<u8>) -> (served: Vec<u8>)
        ensures
            served@ == data@,
            final(self).capacity() == old(self).capacity(),
            (final(self).contents(), final(self).recency())
                == after_put(old(self).contents(), old(self).recency(), old(self).capacity(), text_hash(url@), data@),
    {
        let mut served: Vec<u8> = Vec::new();
        let mut i: usize = 0;
        while i < data.len()
            invariant
                i <= data@.len(),
                served@ == data@.take(i as int),
            decreases data@.len() - i,
        {
            served.push(data[i]);
            i = i + 1;
            assert(served@ =~= data@.take(i as int));
        }
        assert(data@.take(data@.len() as int) =~= data@);
        self.store(url, data);
        served
    }
}

} // verus!
