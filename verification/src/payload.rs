//! Planning the patch applied to a freshly installed server payload: which
//! stylesheets get the scroll fix appended, and which native prebuilds for
//! other platforms are removed.
use vstd::prelude::*;

use crate::precedence::texts;
use crate::text::{
    chars_of, contains, contains_chars, occurs_at, ends_with, ends_with_chars, same_text, starts_with,
    starts_with_chars,
};

verus! {

/// The marker that a patched stylesheet carries.
pub open spec fn patch_mark() -> Seq<char> {
    "dsh-desktop: 禁用页面级弹性滚动"@
}

/// The text appended to a stylesheet: the marker in a comment, then the rule
/// that stops page-level elastic scrolling.
pub open spec fn css_patch_text() -> Seq<char> {
    "\n/* "@ + patch_mark() + " */\nhtml,body{height:100%;overflow:hidden;overscroll-behavior:none}\n"@
}

/// A stylesheet of the web front end is named `index-*.css`.
pub open spec fn is_css_bundle_name(name: Seq<char>) -> bool {
    starts_with(name, "index-"@) && ends_with(name, ".css"@)
}

/// A directory entry among the front end's assets, with the file's text when
/// it could be read.
#[derive(Debug)]
pub struct CssAsset {
    pub name: String,
    pub content: Option<String>,
}

/// A stylesheet is patched when it could be read and does not carry the
/// marker yet (patching is idempotent).
pub open spec fn css_patch_due(a: CssAsset) -> bool {
    &&& is_css_bundle_name(a.name@)
    &&& match a.content {
        Some(c) => !contains(c@, patch_mark()),
        None => false,
    }
}

/// The names of the stylesheets to patch, in listing order.
pub open spec fn css_patch_targets(assets: Seq<CssAsset>) -> Seq<Seq<char>>
    decreases assets.len(),
{
    if assets.len() == 0 {
        Seq::<Seq<char>>::empty()
    } else {
        let r = css_patch_targets(assets.drop_last());
        if css_patch_due(assets.last()) {
            r.push(assets.last().name@)
        } else {
            r
        }
    }
}

/// Of the `node-pty` prebuilds only `darwin-arm64` is kept.
pub open spec fn prune_prebuild(name: Seq<char>) -> bool {
    name != "darwin-arm64"@
}

/// Of the `@img` packages, the `sharp-*` ones not built for `darwin-arm64` go.
pub open spec fn prune_image_package(name: Seq<char>) -> bool {
    starts_with(name, "sharp-"@) && !contains(name, "darwin-arm64"@)
}

/// What to do to a payload.
#[derive(Debug)]
pub struct PayloadPatch {
    /// Stylesheets (by file name) to which the patch text is appended.
    pub css_appends: Vec<String>,
    /// `node-pty` prebuild directories to remove.
    pub remove_prebuilds: Vec<String>,
    /// `@img` package directories to remove.
    pub remove_images: Vec<String>,
}

/// Patching is idempotent: a stylesheet whose text received the patch text
/// is not selected for patching again.
pub proof fn lemma_patch_idempotent(name: String, content: String, patched: String)
    requires
        patched@ == content@ + css_patch_text(),
    ensures
        !css_patch_due((CssAsset { name, content: Some(patched) })),
        contains(patched@, patch_mark()),
{
    reveal_strlit("\n/* ");
    let k: int = content@.len() as int + 4;
    let mark = patch_mark();
    assert(patched@.subrange(k, k + mark.len()) =~= mark);
    assert(occurs_at(patched@, mark, k));
}

/// An element is kept by `filter` exactly when it occurs and satisfies the predicate.
proof fn lemma_filter_contains_iff(s: Seq<Seq<char>>, pred: spec_fn(Seq<char>) -> bool, n: Seq<char>)
    ensures
        s.filter(pred).contains(n) <==> (s.contains(n) && pred(n)),
    decreases s.len(),
{
    reveal(Seq::filter);
    if s.len() > 0 {
        let t = s.drop_last();
        lemma_filter_contains_iff(t, pred, n);
        if s.contains(n) && n != s.last() {
            let i = choose|i: int| 0 <= i < s.len() && s[i] == n;
            assert(t[i] == n);
        }
        if t.contains(n) {
            let i = choose|i: int| 0 <= i < t.len() && t[i] == n;
            assert(s[i] == n);
        }
        if pred(s.last()) {
            let f = t.filter(pred);
            if f.contains(n) {
                let i = choose|i: int| 0 <= i < f.len() && f[i] == n;
                assert(f.push(s.last())[i] == n);
            }
            if n == s.last() {
                assert(f.push(s.last())[f.len() as int] == n);
            }
            if f.push(s.last()).contains(n) && n != s.last() {
                let i = choose|i: int| 0 <= i < f.len() + 1 && f.push(s.last())[i] == n;
                assert(f[i] == n);
            }
        }
        if s.contains(n) && n == s.last() {
            assert(s[s.len() - 1] == n);
        }
    }
}

/// Of the `node-pty` prebuild directories, every one except `darwin-arm64`
/// is removed, and `darwin-arm64` is kept.
pub proof fn lemma_prebuild_removals(names: Seq<Seq<char>>, n: Seq<char>)
    ensures
        names.filter(|m: Seq<char>| prune_prebuild(m)).contains(n) <==> (names.contains(n) && n
            != "darwin-arm64"@),
{
    lemma_filter_contains_iff(names, |m: Seq<char>| prune_prebuild(m), n);
}

/// Of the `@img` packages, those named `sharp-*` that are not built for
/// `darwin-arm64` are removed, and no others.
pub proof fn lemma_image_removals(names: Seq<Seq<char>>, n: Seq<char>)
    ensures
        names.filter(|m: Seq<char>| prune_image_package(m)).contains(n) <==> (names.contains(n)
            && starts_with(n, "sharp-"@) && !contains(n, "darwin-arm64"@)),
{
    lemma_filter_contains_iff(names, |m: Seq<char>| prune_image_package(m), n);
}

/// Every name of the form `index-*.css` is a stylesheet name, whatever stands
/// between the prefix and the suffix.
pub proof fn lemma_css_bundle_name(middle: Seq<char>)
    ensures
        is_css_bundle_name("index-"@ + middle + ".css"@),
{
    reveal_strlit("index-");
    reveal_strlit(".css");
    let n = "index-"@ + middle + ".css"@;
    assert(n.take(6) =~= "index-"@);
    assert(n.skip(n.len() - 4) =~= ".css"@);
}

/// A readable `index-*.css` stylesheet without the marker is selected for
/// patching.
pub proof fn lemma_css_target_selected(assets: Seq<CssAsset>, i: int, middle: Seq<char>)
    requires
        0 <= i < assets.len(),
        assets[i].name@ == "index-"@ + middle + ".css"@,
        assets[i].content is Some,
        !contains(assets[i].content->0@, patch_mark()),
    ensures
        css_patch_targets(assets).contains(assets[i].name@),
    decreases assets.len(),
{
    lemma_css_bundle_name(middle);
    let t = assets.drop_last();
    let r = css_patch_targets(t);
    if i == assets.len() - 1 {
        assert(css_patch_due(assets.last()));
        assert(r.push(assets.last().name@)[r.len() as int] == assets[i].name@);
    } else {
        assert(t[i] == assets[i]);
        lemma_css_target_selected(t, i, middle);
        let k = choose|k: int| 0 <= k < r.len() && r[k] == assets[i].name@;
        if css_patch_due(assets.last()) {
            assert(r.push(assets.last().name@)[k] == assets[i].name@);
        }
    }
}

/// Whether a file name is that of a front-end stylesheet.
pub fn is_css_bundle(name: &str) -> (r: bool)
    ensures
        r == is_css_bundle_name(name@),
{
    let cs = chars_of(name);
    let prefix = chars_of("index-");
    let suffix = chars_of(".css");
    starts_with_chars(&cs, &prefix) && ends_with_chars(&cs, &suffix)
}

/// Whether a stylesheet's text still lacks the patch.
pub fn css_needs_patch(content: &str) -> (r: bool)
    ensures
        r == !contains(content@, patch_mark()),
{
    let cs = chars_of(content);
    let mark = chars_of("dsh-desktop: 禁用页面级弹性滚动");
    !contains_chars(&cs, &mark)
}

/// The text appended to a stylesheet.
pub fn css_patch_block() -> (r: String)
    ensures
        r@ == css_patch_text(),
{
    let mut r = String::from_str("\n/* ");
    r.append("dsh-desktop: 禁用页面级弹性滚动");
    r.append(" */\nhtml,body{height:100%;overflow:hidden;overscroll-behavior:none}\n");
    r
}

/// Whether a `node-pty` prebuild directory is removed.
pub fn prunes_prebuild(name: &str) -> (r: bool)
    ensures
        r == prune_prebuild(name@),
{
    !same_text(name, "darwin-arm64")
}

/// Whether an `@img` package directory is removed.
pub fn prunes_image_package(name: &str) -> (r: bool)
    ensures
        r == prune_image_package(name@),
{
    let cs = chars_of(name);
    let prefix = chars_of("sharp-");
    let arch = chars_of("darwin-arm64");
    starts_with_chars(&cs, &prefix) && !contains_chars(&cs, &arch)
}

fn is_css_patch_due(a: &CssAsset) -> (r: bool)
    ensures
        r == css_patch_due(*a),
{
    if !is_css_bundle(a.name.as_str()) {
        return false;
    }
    match &a.content {
        Some(c) => css_needs_patch(c.as_str()),
        None => false,
    }
}

/// The names in `names` that `prune_prebuild` selects, in order.
fn select_prebuilds(names: &Vec<String>) -> (r: Vec<String>)
    ensures
        texts(r@) == texts(names@).filter(|n: Seq<char>| prune_prebuild(n)),
{
    let mut r: Vec<String> = Vec::new();
    let mut i: usize = 0;
    let ghost all = texts(names@);
    let ghost pred = |n: Seq<char>| prune_prebuild(n);
    proof {
        reveal(Seq::filter);
        assert(all.take(0) =~= Seq::<Seq<char>>::empty());
        assert(texts(r@) =~= all.take(0).filter(pred));
    }
    while i < names.len()
        invariant
            i <= names@.len(),
            all == texts(names@),
            pred == (|n: Seq<char>| prune_prebuild(n)),
            texts(r@) == all.take(i as int).filter(pred),
        decreases names@.len() - i,
    {
        proof {
            reveal(Seq::filter);
            assert(all.take(i + 1).drop_last() =~= all.take(i as int));
            assert(all.take(i + 1).last() == names@[i as int]@);
        }
        if prunes_prebuild(names[i].as_str()) {
            r.push(names[i].clone());
            assert(texts(r@) =~= all.take(i as int).filter(pred).push(names@[i as int]@));
        }
        i = i + 1;
    }
    assert(all.take(names@.len() as int) =~= all);
    r
}

/// The names in `names` that `prune_image_package` selects, in order.
fn select_image_packages(names: &Vec<String>) -> (r: Vec<String>)
    ensures
        texts(r@) == texts(names@).filter(|n: Seq<char>| prune_image_package(n)),
{
    let mut r: Vec<String> = Vec::new();
    let mut i: usize = 0;
    let ghost all = texts(names@);
    let ghost pred = |n: Seq<char>| prune_image_package(n);
    proof {
        reveal(Seq::filter);
        assert(all.take(0) =~= Seq::<Seq<char>>::empty());
        assert(texts(r@) =~= all.take(0).filter(pred));
    }
    while i < names.len()
        invariant
            i <= names@.len(),
            all == texts(names@),
            pred == (|n: Seq<char>| prune_image_package(n)),
            texts(r@) == all.take(i as int).filter(pred),
        decreases names@.len() - i,
    {
        proof {
            reveal(Seq::filter);
            assert(all.take(i + 1).drop_last() =~= all.take(i as int));
            assert(all.take(i + 1).last() == names@[i as int]@);
        }
        if prunes_image_package(names[i].as_str()) {
            r.push(names[i].clone());
            assert(texts(r@) =~= all.take(i as int).filter(pred).push(names@[i as int]@));
        }
        i = i + 1;
    }
    assert(all.take(names@.len() as int) =~= all);
    r
}

/// The stylesheets to patch among the listed assets, in order.
fn select_css_targets(assets: &Vec<CssAsset>) -> (r: Vec<String>)
    ensures
        texts(r@) == css_patch_targets(assets@),
{
    let mut r: Vec<String> = Vec::new();
    let mut i: usize = 0;
    assert(assets@.take(0) =~= Seq::<CssAsset>::empty());
    assert(texts(r@) =~= Seq::<Seq<char>>::empty());
    while i < assets.len()
        invariant
            i <= assets@.len(),
            texts(r@) == css_patch_targets(assets@.take(i as int)),
        decreases assets@.len() - i,
    {
        let ghost t = assets@.take(i + 1);
        assert(t.drop_last() =~= assets@.take(i as int));
        assert(t.last() == assets@[i as int]);
        if is_css_patch_due(&assets[i]) {
            r.push(assets[i].name.clone());
            assert(texts(r@) =~= css_patch_targets(assets@.take(i as int)).push(
                assets@[i as int].name@,
            ));
        }
        i = i + 1;
    }
    assert(assets@.take(assets@.len() as int) =~= assets@);
    r
}

/// Plans the patch of a payload from what its directories hold: the front
/// end's assets, the `node-pty` prebuild directories and the `@img` packages.
pub fn patch_payload(css_assets: &Vec<CssAsset>, prebuilds: &Vec<String>, images: &Vec<String>) -> (r: PayloadPatch)
    ensures
        texts(r.css_appends@) == css_patch_targets(css_assets@),
        texts(r.remove_prebuilds@) == texts(prebuilds@).filter(|n: Seq<char>| prune_prebuild(n)),
        texts(r.remove_images@) == texts(images@).filter(
            |n: Seq<char>| prune_image_package(n),
        ),
        forall|n: Seq<char>|
            #![trigger texts(r.remove_prebuilds@).contains(n)]
            texts(r.remove_prebuilds@).contains(n) <==> (texts(prebuilds@).contains(n) && n
                != "darwin-arm64"@),
        forall|n: Seq<char>|
            #![trigger texts(r.remove_images@).contains(n)]
            texts(r.remove_images@).contains(n) <==> (texts(images@).contains(n) && starts_with(
                n,
                "sharp-"@,
            ) && !contains(n, "darwin-arm64"@)),
        forall|i: int, middle: Seq<char>|
            #![trigger css_assets@[i], ("index-"@ + middle + ".css"@)]
            0 <= i < css_assets@.len() && css_assets@[i].name@ == "index-"@ + middle + ".css"@
                && css_assets@[i].content is Some && !contains(
                css_assets@[i].content->0@,
                patch_mark(),
            ) ==> texts(r.css_appends@).contains(css_assets@[i].name@),
{
    let r = PayloadPatch {
        css_appends: select_css_targets(css_assets),
        remove_prebuilds: select_prebuilds(prebuilds),
        remove_images: select_image_packages(images),
    };
    proof {
        assert forall|n: Seq<char>| #![trigger texts(r.remove_prebuilds@).contains(n)]
            texts(r.remove_prebuilds@).contains(n) <==> (texts(prebuilds@).contains(n) && n
                != "darwin-arm64"@) by {
            lemma_prebuild_removals(texts(prebuilds@), n);
        }
        assert forall|n: Seq<char>| #![trigger texts(r.remove_images@).contains(n)]
            texts(r.remove_images@).contains(n) <==> (texts(images@).contains(n) && starts_with(
                n,
                "sharp-"@,
            ) && !contains(n, "darwin-arm64"@)) by {
            lemma_image_removals(texts(images@), n);
        }
        assert forall|i: int, middle: Seq<char>|
            #![trigger css_assets@[i], ("index-"@ + middle + ".css"@)]
            0 <= i < css_assets@.len() && css_assets@[i].name@ == "index-"@ + middle + ".css"@
                && css_assets@[i].content is Some && !contains(
                css_assets@[i].content->0@,
                patch_mark(),
            ) implies texts(r.css_appends@).contains(css_assets@[i].name@) by {
            lemma_css_target_selected(css_assets@, i, middle);
        }
    }
    r
}

} // verus!
