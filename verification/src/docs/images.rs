//! The images that pages show: where they come from and where they are kept.

use vstd::prelude::*;

use crate::paths::{
    file_stem, is_name, join_path, law_stem_and_extension_make_the_name, path_join, stem_of,
};
use crate::text::{
    begins, begins_with, behind, chars_of, cut_prefix, law_prefix_and_suffix_come_off, opt_text,
    same, swap, swapped, text_of, Class,
};

verus! {

/// The longest edge that an embedded image has, in pixels.
pub const IMAGE_EDGE: u32 = 1400;

/// What is known of the images.
pub struct ImageCache {
    /// Where paths from the root of the website lead.
    pub static_root: String,
    /// Where prepared images are kept.
    pub out_dir: String,
    /// What came of each image that was asked for: its path, or none.
    pub done: Vec<(String, Option<String>)>,
}

/// A cache over views.
pub struct CacheView {
    pub static_root: Seq<char>,
    pub out_dir: Seq<char>,
    pub done: Seq<(Seq<char>, Option<Seq<char>>)>,
}

impl View for ImageCache {
    type V = CacheView;

    open spec fn view(&self) -> CacheView {
        CacheView {
            static_root: self.static_root@,
            out_dir: self.out_dir@,
            done: Seq::new(self.done@.len(), |i: int| (self.done@[i].0@, opt_text(self.done@[i].1))),
        }
    }
}

/// An image that has to be prepared before the page can be converted.
pub struct ImageJob<S> {
    /// By what name its outcome is recorded.
    pub key: S,
    /// The file that holds it.
    pub source: S,
}

impl ImageJob<String> {
    /// The job over the views of its texts.
    pub open spec fn seen(self) -> ImageJob<Seq<char>> {
        ImageJob { key: self.key@, source: self.source@ }
    }
}

/// What the cache says of an image.
pub enum Embed<S> {
    /// It is not a file of the website.
    Refused,
    /// It was asked for before, with this outcome.
    Known(Option<S>),
    /// It has to be prepared.
    Prepare(ImageJob<S>),
}

impl Embed<String> {
    /// The answer over the views of its texts.
    pub open spec fn seen(self) -> Embed<Seq<char>> {
        match self {
            Embed::Refused => Embed::Refused,
            Embed::Known(r) => Embed::Known(opt_text(r)),
            Embed::Prepare(job) => Embed::Prepare(job.seen()),
        }
    }
}

/// An address that is not a file of the website.
pub open spec fn is_remote(url: Seq<char>) -> bool {
    begins(url, "http://"@) || begins(url, "https://"@) || begins(url, "data:"@)
}

/// How long `url` is up to its query or fragment.
pub open spec fn path_len(url: Seq<char>) -> int
    decreases url.len(),
{
    if url.len() == 0 || url[0] == '#' || url[0] == '?' {
        0
    } else {
        1 + path_len(url.drop_first())
    }
}

/// `url` without its query and fragment.
pub open spec fn url_path(url: Seq<char>) -> Seq<char> {
    url.take(path_len(url))
}

/// By what name the outcome of an image is recorded.
pub open spec fn image_key(base: Seq<char>, url: Seq<char>) -> Seq<char> {
    base + "|"@ + url
}

/// The file of an image: below the root of the website, or beside the page.
pub open spec fn image_source(root: Seq<char>, base: Seq<char>, url: Seq<char>) -> Seq<char> {
    match behind(url_path(url), "/"@) {
        Some(rest) => join_path(root, rest),
        None => join_path(base, url_path(url)),
    }
}

/// The last outcome that is recorded for a key.
pub open spec fn outcome(done: Seq<(Seq<char>, Option<Seq<char>>)>, key: Seq<char>) -> Option<
    Option<Seq<char>>,
>
    decreases done.len(),
{
    if done.len() == 0 {
        None
    } else if done.last().0 == key {
        Some(done.last().1)
    } else {
        outcome(done.drop_last(), key)
    }
}

impl CacheView {
    /// What the cache says of the image `url` on a page in `base`.
    pub open spec fn embed(self, base: Seq<char>, url: Seq<char>) -> Embed<Seq<char>> {
        if is_remote(url) {
            Embed::Refused
        } else {
            match outcome(self.done, image_key(base, url)) {
                Some(r) => Embed::Known(r),
                None => Embed::Prepare(
                    ImageJob {
                        key: image_key(base, url),
                        source: image_source(self.static_root, base, url),
                    },
                ),
            }
        }
    }

    /// The cache with one more outcome.
    pub open spec fn record(self, key: Seq<char>, result: Option<Seq<char>>) -> CacheView {
        CacheView {
            static_root: self.static_root,
            out_dir: self.out_dir,
            done: self.done.push((key, result)),
        }
    }
}

/// Where the prepared image of `src` is kept below the root, and by what path
/// pages name it; none where `src` names no file.
pub open spec fn prepared(out_dir: Seq<char>, src: Seq<char>) -> Option<(Seq<char>, Seq<char>)> {
    match file_stem(src) {
        Some(stem) => Some(
            (
                join_path(out_dir, stem + ".png"@),
                swap(join_path("build/docs/img"@, stem + ".png"@), Class::One('\\'), '/'),
            ),
        ),
        None => None,
    }
}

/// Takes the query and the fragment off an address.
fn cut_query(url: &str) -> (r: String)
    ensures
        r@ == url_path(url@),
{
    let v = chars_of(url);
    let mut i: usize = 0;
    assert(v@.skip(0) =~= v@);
    while i < v.len() && v[i] != '#' && v[i] != '?'
        invariant
            i <= v.len(),
            v@ == url@,
            i + path_len(v@.skip(i as int)) == path_len(url@),
        decreases v.len() - i,
    {
        assert(v@.skip(i as int).drop_first() =~= v@.skip(i + 1));
        i = i + 1;
    }
    assert(path_len(v@.skip(i as int)) == 0);
    let r = text_of(&v, 0, i);
    assert(r@ =~= url_path(url@));
    r
}

impl ImageCache {
    /// The empty cache of the repository at `root`.
    pub fn new(root: &str) -> (r: ImageCache)
        ensures
            r@ == (CacheView {
                static_root: join_path(root@, "gh-pages/static"@),
                out_dir: join_path(root@, "build/docs/img"@),
                done: seq![],
            }),
    {
        let r = ImageCache {
            static_root: path_join(root, "gh-pages/static"),
            out_dir: path_join(root, "build/docs/img"),
            done: Vec::new(),
        };
        assert(r@.done =~= seq![]);
        r
    }

    /// Looks an outcome up.
    fn lookup(&self, key: &str) -> (r: Option<Option<String>>)
        ensures
            match r {
                Some(o) => outcome(self@.done, key@) == Some(opt_text(o)),
                None => outcome(self@.done, key@) is None,
            },
    {
        let ghost all = self@.done;
        let mut i: usize = self.done.len();
        assert(all.take(i as int) =~= all);
        while i > 0
            invariant
                i <= self.done.len(),
                all == self@.done,
                outcome(all.take(i as int), key@) == outcome(all, key@),
            decreases i,
        {
            assert(all.take(i as int).drop_last() =~= all.take(i - 1));
            assert(all.take(i as int).last() == all[i - 1]);
            if same(self.done[i - 1].0.as_str(), key) {
                return Some(
                    match &self.done[i - 1].1 {
                        Some(p) => Some(p.clone()),
                        None => None,
                    },
                );
            }
            i = i - 1;
        }
        None
    }

    /// Says what is known of the image `url` on a page in `base_dir`.
    pub fn embed(&self, base_dir: &str, url: &str) -> (r: Embed<String>)
        ensures
            r.seen() == self@.embed(base_dir@, url@),
    {
        if begins_with(url, "http://") || begins_with(url, "https://") || begins_with(
            url,
            "data:",
        ) {
            return Embed::Refused;
        }
        let mut key = base_dir.to_owned();
        key.append("|");
        key.append(url);
        match self.lookup(key.as_str()) {
            Some(o) => Embed::Known(o),
            None => {
                let rel = cut_query(url);
                let source = match cut_prefix(rel.as_str(), "/") {
                    Some(rest) => path_join(self.static_root.as_str(), rest.as_str()),
                    None => path_join(base_dir, rel.as_str()),
                };
                Embed::Prepare(ImageJob { key, source })
            },
        }
    }

    /// Records what came of an image.
    pub fn record(&mut self, key: String, result: Option<String>)
        ensures
            final(self)@ == old(self)@.record(key@, opt_text(result)),
    {
        let ghost was = self@;
        self.done.push((key, result));
        assert(self@.done =~= was.done.push((key@, opt_text(result))));
    }

    /// Says where the prepared image of `src` is kept, and by what path pages name it.
    pub fn prepare(&self, src: &str) -> (r: Option<(String, String)>)
        ensures
            match r {
                Some((dst, rel)) => prepared(self@.out_dir, src@) == Some((dst@, rel@)),
                None => prepared(self@.out_dir, src@) is None,
            },
    {
        match stem_of(src) {
            Some(stem) => {
                let mut name = stem;
                name.append(".png");
                let dst = path_join(self.out_dir.as_str(), name.as_str());
                let rel = path_join("build/docs/img", name.as_str());
                Some((dst, swapped(rel.as_str(), Class::One('\\'), '/')))
            },
            None => None,
        }
    }
}

/// An image whose outcome was recorded is known with that outcome, and what was
/// known of the other images stays.
pub proof fn law_recorded_image_is_known(
    c: CacheView,
    base: Seq<char>,
    url: Seq<char>,
    key: Seq<char>,
    result: Option<Seq<char>>,
)
    ensures
        !is_remote(url) && key == image_key(base, url) ==> c.record(key, result).embed(base, url)
            == Embed::Known(result),
        key != image_key(base, url) ==> c.record(key, result).embed(base, url) == c.embed(
            base,
            url,
        ),
{
    let d = c.done.push((key, result));
    assert(d.drop_last() =~= c.done);
}

/// The path of an address ends before its first `?` or `#`.
pub proof fn law_queries_are_cut_off(path: Seq<char>, c: char, rest: Seq<char>)
    requires
        !path.contains('?'),
        !path.contains('#'),
        c == '?' || c == '#',
    ensures
        url_path(path) == path,
        url_path(path.push(c) + rest) == path,
    decreases path.len(),
{
    let s = path.push(c) + rest;
    if path.len() == 0 {
        assert(s[0] == c);
        assert(url_path(s) =~= path);
        assert(url_path(path) =~= path);
    } else {
        let t = path.drop_first();
        assert(path.contains(path[0]));
        assert forall|x: char| t.contains(x) implies path.contains(x) by {
            let i = choose|i: int| 0 <= i < t.len() && t[i] == x;
            assert(path[i + 1] == x);
        }
        law_queries_are_cut_off(t, c, rest);
        assert(s[0] == path[0]);
        assert(s.drop_first() =~= t.push(c) + rest);
        lemma_path_len(t);
        lemma_path_len(t.push(c) + rest);
        assert(url_path(t).len() == t.len());
        assert(url_path(t.push(c) + rest).len() == t.len());
        assert(url_path(s) =~= path);
        assert(url_path(path) =~= path);
    }
}

proof fn lemma_path_len(url: Seq<char>)
    ensures
        0 <= path_len(url) <= url.len(),
    decreases url.len(),
{
    if url.len() > 0 && url[0] != '#' && url[0] != '?' {
        lemma_path_len(url.drop_first());
    }
}

/// An image of the website lies below the root of the website where its address
/// begins with a slash, and beside its page where it does not.
pub proof fn law_images_lie_below_the_root_or_the_page(
    root: Seq<char>,
    base: Seq<char>,
    path: Seq<char>,
)
    requires
        !path.contains('?'),
        !path.contains('#'),
    ensures
        image_source(root, base, seq!['/'] + path) == join_path(root, path),
        path.len() == 0 || path[0] != '/' ==> image_source(root, base, path) == join_path(
            base,
            path,
        ),
{
    reveal_strlit("/");
    assert("/"@ =~= seq!['/']);
    let abs = seq!['/'] + path;
    assert(!abs.contains('?') && !abs.contains('#')) by {
        if abs.contains('?') {
            let i = choose|i: int| 0 <= i < abs.len() && abs[i] == '?';
            assert(path[i - 1] == '?');
        }
        if abs.contains('#') {
            let i = choose|i: int| 0 <= i < abs.len() && abs[i] == '#';
            assert(path[i - 1] == '#');
        }
    }
    law_queries_are_cut_off(abs, '?', seq![]);
    law_queries_are_cut_off(path, '?', seq![]);
    law_prefix_and_suffix_come_off("/"@, path);
    if path.len() > 0 && path[0] != '/' {
        assert(path.subrange(0, 1)[0] == path[0]);
        assert(!begins(path, "/"@)) by {
            assert("/"@[0] == '/');
        }
    }
}

/// Images that are not files of the website are refused, whatever is recorded;
/// any other that is not recorded is asked for, by a key of page and address and
/// with its file.
pub proof fn law_only_local_images_are_embedded(c: CacheView, base: Seq<char>, url: Seq<char>)
    ensures
        begins(url, "http://"@) || begins(url, "https://"@) || begins(url, "data:"@) ==> c.embed(
            base,
            url,
        ) == Embed::<Seq<char>>::Refused,
        !(begins(url, "http://"@) || begins(url, "https://"@) || begins(url, "data:"@))
            && c.done.len() == 0 ==> c.embed(base, url) == Embed::Prepare(
            ImageJob {
                key: base + "|"@ + url,
                source: image_source(c.static_root, base, url),
            },
        ),
{
}

/// A prepared image is a PNG with the name of its file, below the directory of
/// images, and named the same way on the pages.
pub proof fn law_prepared_images_keep_their_name(
    out_dir: Seq<char>,
    dir: Seq<char>,
    stem: Seq<char>,
    ext: Seq<char>,
)
    requires
        stem.len() > 0,
        !stem.contains('/'),
        !stem.contains('\\'),
        !ext.contains('/'),
        !ext.contains('.'),
        is_name(stem + seq!['.'] + ext),
    ensures
        prepared(out_dir, join_path(dir, stem + seq!['.'] + ext)) == Some(
            (join_path(out_dir, stem + ".png"@), "build/docs/img/"@ + (stem + ".png"@)),
        ),
{
    law_stem_and_extension_make_the_name(dir, stem, ext);
    reveal_strlit("build/docs/img");
    reveal_strlit("build/docs/img/");
    reveal_strlit(".png");
    let name = stem + ".png"@;
    assert(name[0] == stem[0]);
    assert(stem.contains(stem[0]));
    assert("build/docs/img"@.push('/') =~= "build/docs/img/"@);
    let p = "build/docs/img/"@ + name;
    assert(join_path("build/docs/img"@, name) == p);
    assert forall|i: int| 0 <= i < p.len() implies p[i] != '\\' by {
        if i < 15 {
            assert(p[i] == "build/docs/img/"@[i]);
        } else if i < 15 + stem.len() {
            assert(p[i] == stem[i - 15]);
            assert(stem.contains(stem[i - 15]));
        } else {
            assert(p[i] == ".png"@[i - 15 - stem.len()]);
        }
    }
    assert(swap(p, Class::One('\\'), '/') =~= p);
}

} // verus!
