//! Clipboard history: what is captured, how it is kept and how it is shown.

use vstd::prelude::*;

use crate::measure::{kib, whole_kib};
use crate::pictures::{
    as_png, decode_rgba, decoded_rgba, opt_bytes, picture_in, pixels, raster_view, read_picture,
    thumbnail, thumbnail_of, to_png, Pixels, PixelsModel, Raster, RasterModel,
};
use crate::text::{
    all_white, chars_of, decimal, first_line, head_line, is_white, law_blank, law_lines,
    law_trimmed, lines, push_decimal, split_lines, string_of, trim, trimmed,
};

verus! {

// ── Entries ───────────────────────────────────────────────────────────────────

/// Content captured from the system clipboard.
#[derive(Debug, PartialEq)]
pub enum ClipboardContent {
    Text(String),
    Image {
        /// PNG-encoded bytes used when restoring this entry back to clipboard.
        png: Vec<u8>,
        width: u32,
        height: u32,
    },
}

/// A single entry in the clipboard history.
#[derive(Debug)]
pub struct ClipboardEntry {
    pub content: ClipboardContent,
    /// Unix timestamp of when this was first captured.
    pub captured_at: u64,
}

/// What clipboard content holds.
#[verifier::ext_equal]
pub enum ContentModel {
    Text(Seq<char>),
    Image { png: Seq<u8>, width: u32, height: u32 },
}

/// What an entry of the clipboard history holds.
#[verifier::ext_equal]
pub struct ClipModel {
    pub content: ContentModel,
    pub captured_at: u64,
}

impl View for ClipboardContent {
    type V = ContentModel;

    open spec fn view(&self) -> ContentModel {
        match self {
            ClipboardContent::Text(text) => ContentModel::Text(text@),
            ClipboardContent::Image { png, width, height } => ContentModel::Image {
                png: png@,
                width: *width,
                height: *height,
            },
        }
    }
}

impl View for ClipboardEntry {
    type V = ClipModel;

    open spec fn view(&self) -> ClipModel {
        ClipModel { content: self.content@, captured_at: self.captured_at }
    }
}

impl Clone for ClipboardContent {
    fn clone(&self) -> (r: Self)
        ensures
            r@ == self@,
    {
        match self {
            ClipboardContent::Text(text) => ClipboardContent::Text(text.clone()),
            ClipboardContent::Image { png, width, height } => {
                let copy = png.clone();
                assert(copy@ =~= png@);
                ClipboardContent::Image { png: copy, width: *width, height: *height }
            },
        }
    }
}

impl Clone for ClipboardEntry {
    fn clone(&self) -> (r: Self)
        ensures
            r@ == self@,
    {
        ClipboardEntry { content: self.content.clone(), captured_at: self.captured_at }
    }
}

/// What a history holds.
pub open spec fn clips(h: Seq<ClipboardEntry>) -> Seq<ClipModel> {
    Seq::new(h.len(), |i: int| h[i]@)
}

/// What an optional content holds.
pub open spec fn opt_content(c: Option<ClipboardContent>) -> Option<ContentModel> {
    match c {
        Some(c) => Some(c@),
        None => None,
    }
}

/// Whether two contents are the same.
pub fn same_content(a: &ClipboardContent, b: &ClipboardContent) -> (r: bool)
    ensures
        r == (a@ == b@),
{
    match (a, b) {
        (ClipboardContent::Text(s), ClipboardContent::Text(t)) => {
            crate::text::same(s.as_str(), t.as_str())
        },
        (
            ClipboardContent::Image { png: p, width: w, height: h },
            ClipboardContent::Image { png: q, width: x, height: y },
        ) => { *w == *x && *h == *y && same_bytes(p, q) },
        (ClipboardContent::Text(_), ClipboardContent::Image { .. }) => false,
        (ClipboardContent::Image { .. }, ClipboardContent::Text(_)) => false,
    }
}

fn same_bytes(a: &Vec<u8>, b: &Vec<u8>) -> (r: bool)
    ensures
        r == (a@ == b@),
{
    if a.len() != b.len() {
        return false;
    }
    let mut i: usize = 0;
    while i < a.len()
        invariant
            i <= a@.len(),
            a@.len() == b@.len(),
            forall|k: int| 0 <= k < i ==> a@[k] == b@[k],
        decreases a@.len() - i,
    {
        if a[i] != b[i] {
            return false;
        }
        i = i + 1;
    }
    assert(a@ =~= b@);
    true
}

// ── Display ───────────────────────────────────────────────────────────────────

/// The first line of a text, trimmed, and cut short where it is longer than 80 characters.
pub open spec fn text_preview(text: Seq<char>) -> Seq<char> {
    let line = trimmed(first_line(text));
    if line.len() > 80 {
        line.take(77).push('\u{2026}')
    } else {
        line
    }
}

/// Width and height, as in `640x480`.
pub open spec fn dimensions(width: u32, height: u32) -> Seq<char> {
    decimal(width as nat).push('x') + decimal(height as nat)
}

/// The row text of a content.
pub open spec fn content_preview(c: ContentModel) -> Seq<char> {
    match c {
        ContentModel::Text(text) => text_preview(text),
        ContentModel::Image { width, height, .. } => "Screenshot "@ + dimensions(width, height),
    }
}

/// The second row text of a content.
pub open spec fn content_subtitle(c: ContentModel) -> Seq<char> {
    match c {
        ContentModel::Text(text) => {
            let n = lines(text).len();
            if n > 1 {
                decimal(n) + " lines \u{b7} "@ + decimal(text.len()) + " chars"@
            } else {
                decimal(text.len()) + " chars"@
            }
        },
        ContentModel::Image { png, width, height } => {
            "PNG \u{b7} "@ + dimensions(width, height) + " \u{b7} "@ + decimal(
                whole_kib(png.len()) as nat,
            ) + " KiB"@
        },
    }
}

impl ClipboardEntry {
    /// Single-line truncated preview for display.
    pub fn preview(&self) -> (r: String)
        ensures
            r@ == content_preview(self@.content),
    {
        match &self.content {
            ClipboardContent::Text(text) => {
                let v = chars_of(text.as_str());
                let line = trim(head_line(v.as_slice()));
                if line.len() > 80 {
                    let head = vstd::slice::slice_subrange(line, 0, 77);
                    let mut r = string_of(head);
                    r.push('\u{2026}');
                    r
                } else {
                    string_of(line)
                }
            },
            ClipboardContent::Image { width, height, .. } => {
                let mut r = String::new();
                r.append("Screenshot ");
                push_decimal(&mut r, *width as u64);
                r.push('x');
                push_decimal(&mut r, *height as u64);
                assert(r@ =~= content_preview(self@.content));
                r
            },
        }
    }

    /// Human-readable subtitle.
    pub fn subtitle(&self) -> (r: String)
        ensures
            r@ == content_subtitle(self@.content),
    {
        let mut r = String::new();
        match &self.content {
            ClipboardContent::Text(text) => {
                let v = chars_of(text.as_str());
                let count: usize = split_lines(v.as_slice()).len();
                if count > 1 {
                    push_decimal(&mut r, count as u64);
                    r.append(" lines \u{b7} ");
                }
                push_decimal(&mut r, v.len() as u64);
                r.append(" chars");
            },
            ClipboardContent::Image { png, width, height } => {
                r.append("PNG \u{b7} ");
                push_decimal(&mut r, *width as u64);
                r.push('x');
                push_decimal(&mut r, *height as u64);
                r.append(" \u{b7} ");
                push_decimal(&mut r, kib(png.len() as u64));
                r.append(" KiB");
            },
        }
        assert(r@ =~= content_subtitle(self@.content));
        r
    }

    /// The text, where the content is text.
    pub fn text(&self) -> (r: Option<&str>)
        ensures
            match self@.content {
                ContentModel::Text(text) => r matches Some(t) && t@ == text,
                ContentModel::Image { .. } => r is None,
            },
    {
        match &self.content {
            ClipboardContent::Text(text) => Some(text.as_str()),
            ClipboardContent::Image { .. } => None,
        }
    }

    /// The PNG bytes, where the content is an image.
    pub fn image_png(&self) -> (r: Option<&[u8]>)
        ensures
            match self@.content {
                ContentModel::Image { png, .. } => r matches Some(b) && b@ == png,
                ContentModel::Text(_) => r is None,
            },
    {
        match &self.content {
            ClipboardContent::Image { png, .. } => Some(png.as_slice()),
            ClipboardContent::Text(_) => None,
        }
    }

    /// The pixels of the image, where the content is one that can be decoded.
    pub open spec fn picture(&self) -> Option<PixelsModel> {
        match self@.content {
            ContentModel::Image { png, .. } => decoded_rgba(png),
            ContentModel::Text(_) => None,
        }
    }

    /// The pixels of the image, where the content is one that can be decoded.
    pub fn pixels(&self) -> (r: Option<Pixels>)
        ensures
            pixels(r) == self.picture(),
            r matches Some(p) ==> p.2@.len() == p.0 * p.1 * 4,
    {
        match &self.content {
            ClipboardContent::Image { png, .. } => decode_rgba(png.as_slice()),
            ClipboardContent::Text(_) => None,
        }
    }

    /// The thumbnail of the image, where the content is one that can be decoded.
    pub fn thumbnail(&self) -> (r: Option<Pixels>)
        ensures
            pixels(r) == match self.picture() {
                Some(p) => Some(thumbnail_of(p)),
                None => None,
            },
    {
        match self.pixels() {
            Some(p) => Some(thumbnail(p)),
            None => None,
        }
    }

    /// Whether the content is an image.
    pub fn is_image(&self) -> (r: bool)
        ensures
            r == (self@.content is Image),
    {
        match &self.content {
            ClipboardContent::Image { .. } => true,
            ClipboardContent::Text(_) => false,
        }
    }
}

// ── History ───────────────────────────────────────────────────────────────────

/// How many entries the history keeps.
pub const MAX_HISTORY: usize = 100;

/// How many bytes a captured image may take as PNG.
pub const MAX_IMAGE_BYTES: usize = 8388608;

/// The entries of a history whose content is another.
pub open spec fn others(h: Seq<ClipModel>, content: ContentModel) -> Seq<ClipModel>
    decreases h.len(),
{
    if h.len() == 0 {
        h
    } else if h.last().content == content {
        others(h.drop_last(), content)
    } else {
        others(h.drop_last(), content).push(h.last())
    }
}

/// The earliest time at which an entry of the history says that the content was captured.
pub open spec fn earliest(h: Seq<ClipModel>, content: ContentModel) -> Option<u64>
    decreases h.len(),
{
    if h.len() == 0 {
        None
    } else {
        let before = earliest(h.drop_last(), content);
        if h.last().content != content {
            before
        } else {
            match before {
                Some(t) => if t <= h.last().captured_at {
                    Some(t)
                } else {
                    Some(h.last().captured_at)
                },
                None => Some(h.last().captured_at),
            }
        }
    }
}

/// When a content that is captured at `now` was first captured.
pub open spec fn first_seen(h: Seq<ClipModel>, content: ContentModel, now: u64) -> u64 {
    match earliest(h, content) {
        Some(t) => t,
        None => now,
    }
}

/// A history after a content was captured: the content stands in front and nowhere else,
/// with the time of its first capture, and the oldest entries leave where there are too
/// many.
pub open spec fn with_entry(h: Seq<ClipModel>, content: ContentModel, now: u64) -> Seq<ClipModel> {
    let first = ClipModel { content, captured_at: first_seen(h, content, now) };
    let all = seq![first] + others(h, content);
    if all.len() > MAX_HISTORY {
        all.take(MAX_HISTORY as int)
    } else {
        all
    }
}

/// When a content that is captured at `now` was first captured.
fn first_capture(history: &Vec<ClipboardEntry>, content: &ClipboardContent, now: u64) -> (r: u64)
    ensures
        r == first_seen(clips(history@), content@, now),
{
    let ghost all = clips(history@);
    let mut found: Option<u64> = None;
    let mut i: usize = 0;
    while i < history.len()
        invariant
            i <= history@.len(),
            all == clips(history@),
            found == earliest(all.take(i as int), content@),
        decreases history@.len() - i,
    {
        let e = &history[i];
        assert(all.take(i as int + 1).drop_last() =~= all.take(i as int));
        assert(all.take(i as int + 1).last() == e@);
        if same_content(&e.content, content) {
            found = match found {
                Some(t) => if t <= e.captured_at {
                    Some(t)
                } else {
                    Some(e.captured_at)
                },
                None => Some(e.captured_at),
            };
        }
        i = i + 1;
    }
    assert(all.take(i as int) =~= all);
    match found {
        Some(t) => t,
        None => now,
    }
}

/// Pushes a new entry, captured at `now`, into the history: drops the entries of the same
/// content, of which it takes the time of the first capture, and trims the history to
/// [`MAX_HISTORY`].
pub fn push_entry(history: &mut Vec<ClipboardEntry>, content: ClipboardContent, now: u64)
    ensures
        clips(final(history)@) == with_entry(clips(old(history)@), content@, now),
{
    let ghost before = clips(history@);
    let ghost model = content@;
    let mut kept: Vec<ClipboardEntry> = Vec::new();
    let first = content.clone();
    let since: u64 = first_capture(history, &content, now);
    kept.push(ClipboardEntry { content: first, captured_at: since });
    let ghost head = seq![ClipModel { content: model, captured_at: since }];
    assert(before.take(0) =~= seq![]);
    assert(clips(kept@) =~= head + others(before.take(0), model));
    let mut i: usize = 0;
    while i < history.len()
        invariant
            i <= history@.len(),
            before == clips(history@),
            model == content@,
            clips(kept@) == head + others(before.take(i as int), model),
        decreases history@.len() - i,
    {
        let ghost prev = clips(kept@);
        let e = &history[i];
        assert(before.take(i as int + 1).drop_last() =~= before.take(i as int));
        assert(before.take(i as int + 1).last() == e@);
        if !same_content(&e.content, &content) {
            kept.push(e.clone());
            assert(clips(kept@) =~= prev.push(e@));
        }
        i = i + 1;
        assert(clips(kept@) =~= head + others(before.take(i as int), model));
    }
    assert(before.take(i as int) =~= before);
    let ghost all = clips(kept@);
    if kept.len() > MAX_HISTORY {
        kept.truncate(MAX_HISTORY);
        assert(clips(kept@) =~= all.take(MAX_HISTORY as int));
    }
    *history = kept;
}

/// No content occurs twice.
pub open spec fn distinct(h: Seq<ClipModel>) -> bool {
    forall|i: int, j: int|
        0 <= i < j < h.len() ==> (#[trigger] h[i]).content != (#[trigger] h[j]).content
}

/// What is left without a content: nothing of that content, everything else, and no more.
proof fn lemma_others(h: Seq<ClipModel>, content: ContentModel)
    ensures
        others(h, content).len() <= h.len(),
        forall|k: int|
            0 <= k < others(h, content).len() ==> (#[trigger] others(h, content)[k]).content
                != content && h.contains(others(h, content)[k]),
        forall|k: int|
            0 <= k < h.len() && (#[trigger] h[k]).content != content ==> others(
                h,
                content,
            ).contains(h[k]),
        distinct(h) ==> distinct(others(h, content)),
    decreases h.len(),
{
    let o = others(h, content);
    if h.len() > 0 {
        let init = h.drop_last();
        let p = others(init, content);
        lemma_others(init, content);
        assert forall|k: int| 0 <= k < o.len() implies (#[trigger] o[k]).content != content
            && h.contains(o[k]) by {
            if k < p.len() {
                assert(o[k] == p[k]);
                let x = choose|x: int| 0 <= x < init.len() && init[x] == p[k];
                assert(h[x] == o[k]);
            } else {
                assert(h[h.len() - 1] == o[k]);
            }
        }
        assert forall|k: int| 0 <= k < h.len() && (#[trigger] h[k]).content
            != content implies o.contains(h[k]) by {
            if k < h.len() - 1 {
                assert(init[k] == h[k]);
                assert(p.contains(h[k]));
                let x = choose|x: int| 0 <= x < p.len() && p[x] == h[k];
                assert(o[x] == h[k]);
            } else {
                assert(o[o.len() - 1] == h[k]);
            }
        }
        if distinct(h) {
            assert forall|i: int, j: int| 0 <= i < j < init.len() implies (
            #[trigger] init[i]).content != (#[trigger] init[j]).content by {
                assert(h[i] == init[i] && h[j] == init[j]);
            }
            assert(distinct(p));
            assert forall|i: int, j: int| 0 <= i < j < o.len() implies (#[trigger] o[i]).content
                != (#[trigger] o[j]).content by {
                if j < p.len() {
                    assert(p[i] == o[i] && p[j] == o[j]);
                } else {
                    assert(p[i] == o[i]);
                    let x = choose|x: int| 0 <= x < init.len() && init[x] == p[i];
                    assert(h[x] == o[i] && h[h.len() - 1] == o[j]);
                }
            }
        }
    }
}

/// A content that is not there leaves the history as it is.
proof fn lemma_others_without(h: Seq<ClipModel>, content: ContentModel)
    requires
        forall|k: int| 0 <= k < h.len() ==> (#[trigger] h[k]).content != content,
    ensures
        others(h, content) == h,
    decreases h.len(),
{
    if h.len() > 0 {
        assert forall|k: int| 0 <= k < h.drop_last().len() implies (
        #[trigger] h.drop_last()[k]).content != content by {
            assert(h[k] == h.drop_last()[k]);
        }
        lemma_others_without(h.drop_last(), content);
        assert(h.drop_last().push(h.last()) =~= h);
    }
}

/// A captured content stands in front and nowhere else, the history never grows over its
/// limit, and a history without duplicates stays so.
pub proof fn law_push_entry(h: Seq<ClipModel>, content: ContentModel, now: u64)
    ensures
        with_entry(h, content, now).len() >= 1,
        with_entry(h, content, now)[0] == (ClipModel {
            content,
            captured_at: first_seen(h, content, now),
        }),
        with_entry(h, content, now).len() <= MAX_HISTORY,
        forall|k: int|
            0 < k < with_entry(h, content, now).len() ==> (#[trigger] with_entry(
                h,
                content,
                now,
            )[k]).content != content && h.contains(with_entry(h, content, now)[k]),
        distinct(h) ==> distinct(with_entry(h, content, now)),
{
    lemma_others(h, content);
    let o = others(h, content);
    let w = with_entry(h, content, now);
    assert forall|k: int| 0 < k < w.len() implies (#[trigger] w[k]).content != content
        && h.contains(w[k]) by {
        assert(w[k] == o[k - 1]);
    }
    if distinct(h) {
        assert forall|i: int, j: int| 0 <= i < j < w.len() implies (#[trigger] w[i]).content != (
        #[trigger] w[j]).content by {
            assert(w[j] == o[j - 1]);
            if i > 0 {
                assert(w[i] == o[i - 1]);
            }
        }
    }
}

/// While the history has room, nothing but duplicates of the captured content leaves it.
pub proof fn law_push_entry_keeps(h: Seq<ClipModel>, content: ContentModel, now: u64, k: int)
    requires
        h.len() < MAX_HISTORY,
        0 <= k < h.len(),
        h[k].content != content,
    ensures
        with_entry(h, content, now).contains(h[k]),
{
    lemma_others(h, content);
    let o = others(h, content);
    let x = choose|x: int| 0 <= x < o.len() && o[x] == h[k];
    assert(with_entry(h, content, now)[x + 1] == h[k]);
}

/// The time of the first capture is `now` where the content is new, and otherwise the
/// earliest that an entry of the content has.
pub proof fn law_first_seen(h: Seq<ClipModel>, content: ContentModel, now: u64)
    ensures
        (forall|k: int| 0 <= k < h.len() ==> (#[trigger] h[k]).content != content) ==> first_seen(
            h,
            content,
            now,
        ) == now,
        forall|k: int|
            0 <= k < h.len() && (#[trigger] h[k]).content == content ==> first_seen(
                h,
                content,
                now,
            ) <= h[k].captured_at,
        (exists|k: int| 0 <= k < h.len() && (#[trigger] h[k]).content == content) ==> exists|k: int|
            0 <= k < h.len() && (#[trigger] h[k]).content == content && h[k].captured_at
                == first_seen(h, content, now),
    decreases h.len(),
{
    if h.len() > 0 {
        let init = h.drop_last();
        let last = h.len() - 1;
        law_first_seen(init, content, now);
        assert forall|k: int| 0 <= k < last implies #[trigger] init[k] == h[k] by {}
        lemma_earliest(init, content);
        assert forall|k: int| 0 <= k < h.len() && (#[trigger] h[k]).content
            == content implies first_seen(h, content, now) <= h[k].captured_at by {
            if k < last {
                assert(init[k].content == content);
            }
        }
        if exists|k: int| 0 <= k < h.len() && (#[trigger] h[k]).content == content {
            if exists|k: int| 0 <= k < init.len() && (#[trigger] init[k]).content == content {
                let j = choose|j: int|
                    0 <= j < init.len() && (#[trigger] init[j]).content == content
                        && init[j].captured_at == first_seen(init, content, now);
                assert(h[j].content == content);
            } else {
                let k = choose|k: int| 0 <= k < h.len() && (#[trigger] h[k]).content == content;
                if k < last {
                    assert(init[k].content == content);
                }
            }
            assert(h[last] == h.last());
        }
    }
}

/// A content has an earliest time exactly where an entry holds it.
proof fn lemma_earliest(h: Seq<ClipModel>, content: ContentModel)
    ensures
        earliest(h, content) is Some <==> exists|k: int|
            0 <= k < h.len() && (#[trigger] h[k]).content == content,
    decreases h.len(),
{
    if h.len() > 0 {
        let init = h.drop_last();
        lemma_earliest(init, content);
        if earliest(init, content) is Some {
            let k = choose|k: int| 0 <= k < init.len() && (#[trigger] init[k]).content == content;
            assert(h[k].content == content);
        }
        assert(h[h.len() - 1] == h.last());
        assert forall|k: int| 0 <= k < h.len() - 1 && (#[trigger] h[k]).content
            == content implies earliest(h, content) is Some by {
            assert(init[k].content == content);
        }
    }
}

/// Capturing a content again changes nothing: it stands in front already, and keeps the
/// time of its first capture.
pub proof fn law_push_entry_again(h: Seq<ClipModel>, content: ContentModel, now: u64, later: u64)
    ensures
        with_entry(with_entry(h, content, now), content, later) == with_entry(h, content, now),
{
    law_push_entry(h, content, now);
    lemma_others(h, content);
    let w = with_entry(h, content, now);
    let rest = w.skip(1);
    assert forall|k: int| 0 <= k < rest.len() implies (#[trigger] rest[k]).content != content by {
        assert(rest[k] == w[k + 1]);
    }
    lemma_others_without(rest, content);
    lemma_others_front(w, content);
    assert(others(w, content) == rest);
    law_first_seen(w, content, later);
    assert(w[0].content == content);
    let k = choose|k: int|
        0 <= k < w.len() && (#[trigger] w[k]).content == content && w[k].captured_at == first_seen(
            w,
            content,
            later,
        );
    assert(k == 0);
    assert(with_entry(w, content, later) =~= w);
}

/// Where the first entry is the only one of its content, the others are the rest.
proof fn lemma_others_front(w: Seq<ClipModel>, content: ContentModel)
    requires
        w.len() > 0,
        w[0].content == content,
    ensures
        others(w, content) == others(w.skip(1), content),
    decreases w.len(),
{
    if w.len() == 1 {
        assert(w.drop_last() =~= seq![]);
        assert(w.skip(1) =~= seq![]);
    } else {
        lemma_others_front(w.drop_last(), content);
        assert(w.drop_last().skip(1) =~= w.skip(1).drop_last());
        assert(w.skip(1).last() == w.last());
    }
}

// ── Capture ───────────────────────────────────────────────────────────────────

/// The content that a picture becomes that was encoded as PNG: none where it could not be
/// encoded, or is too large.
pub open spec fn encoded_content(width: u32, height: u32, png: Option<Seq<u8>>) -> Option<
    ContentModel,
> {
    match png {
        Some(png) => if png.len() > MAX_IMAGE_BYTES {
            None
        } else {
            Some(ContentModel::Image { png, width, height })
        },
        None => None,
    }
}

/// Turns a picture that was encoded as PNG into clipboard content.
pub fn content_from_encoded(width: u32, height: u32, png: Option<Vec<u8>>) -> (r: Option<
    ClipboardContent,
>)
    ensures
        opt_content(r) == encoded_content(width, height, opt_bytes(png)),
{
    match png {
        Some(png) => {
            if png.len() > MAX_IMAGE_BYTES {
                None
            } else {
                Some(ClipboardContent::Image { png, width, height })
            }
        },
        None => None,
    }
}

/// The content that a decoded picture becomes.
pub open spec fn image_content(p: Option<RasterModel>) -> Option<ContentModel> {
    match p {
        Some(p) => encoded_content(p.0, p.1, as_png(p)),
        None => None,
    }
}

/// Turns a decoded picture into clipboard content.
pub fn content_from_decoded(p: Option<Raster>) -> (r: Option<ClipboardContent>)
    ensures
        opt_content(r) == image_content(raster_view(p)),
{
    match p {
        Some(p) => content_from_encoded(p.0, p.1, to_png(&p)),
        None => None,
    }
}

/// Decodes image bytes into clipboard content.
pub fn content_from_raw_image(bytes: &[u8], is_png: bool) -> (r: Option<ClipboardContent>)
    ensures
        opt_content(r) == image_content(picture_in(bytes@, is_png)),
{
    content_from_decoded(read_picture(bytes, is_png))
}

/// What a pasteboard offers.
pub struct Pasteboard {
    /// It is marked with `org.nspasteboard.ConcealedType`.
    pub concealed: bool,
    pub text: Option<String>,
    pub png: Option<Vec<u8>>,
    pub tiff: Option<Vec<u8>>,
}

impl Pasteboard {
    /// The content of the image bytes that one format offers.
    pub open spec fn offered(bytes: Option<Vec<u8>>, is_png: bool) -> Option<ContentModel> {
        match bytes {
            Some(b) => image_content(picture_in(b@, is_png)),
            None => None,
        }
    }

    /// The content that is captured: nothing that is concealed, text that is not blank
    /// before images, PNG before TIFF.
    pub open spec fn captured(&self) -> Option<ContentModel> {
        if self.concealed {
            None
        } else if self.text is Some && trimmed(self.text->0@).len() > 0 {
            Some(ContentModel::Text(self.text->0@))
        } else if Pasteboard::offered(self.png, true) is Some {
            Pasteboard::offered(self.png, true)
        } else {
            Pasteboard::offered(self.tiff, false)
        }
    }
}

/// Reads the current clipboard content, or nothing if the pasteboard is marked as
/// concealed (passwords, secrets).
pub fn read_current(pb: Pasteboard) -> (r: Option<ClipboardContent>)
    ensures
        opt_content(r) == pb.captured(),
{
    if pb.concealed {
        return None;
    }
    if let Some(text) = pb.text {
        let v = chars_of(text.as_str());
        if trim(v.as_slice()).len() > 0 {
            return Some(ClipboardContent::Text(text));
        }
    }
    if let Some(bytes) = &pb.png {
        if let Some(content) = content_from_raw_image(bytes.as_slice(), true) {
            return Some(content);
        }
    }
    if let Some(bytes) = &pb.tiff {
        if let Some(content) = content_from_raw_image(bytes.as_slice(), false) {
            return Some(content);
        }
    }
    None
}

/// A concealed pasteboard is never captured.
pub proof fn law_concealed_is_skipped(pb: Pasteboard)
    requires
        pb.concealed,
    ensures
        pb.captured() is None,
{
}

// ── Polling ───────────────────────────────────────────────────────────────────

/// How often the clipboard is looked at, in milliseconds.
pub const POLL_INTERVAL_MS: u64 = 500;

/// What the poller remembers from one look at the clipboard to the next.
pub struct Poller {
    pub last: Option<ClipboardContent>,
    pub last_change_count: i64,
}

/// What a poller remembers.
#[verifier::ext_equal]
pub struct PollerModel {
    pub last: Option<ContentModel>,
    pub last_change_count: i64,
}

impl View for Poller {
    type V = PollerModel;

    open spec fn view(&self) -> PollerModel {
        PollerModel { last: opt_content(self.last), last_change_count: self.last_change_count }
    }
}

impl Poller {
    /// A poller that starts with the history and change count given.
    pub fn new(history: &Vec<ClipboardEntry>, change_count: i64) -> (p: Self)
        ensures
            p@ == (PollerModel {
                last: if history@.len() > 0 {
                    Some(clips(history@)[0].content)
                } else {
                    None
                },
                last_change_count: change_count,
            }),
    {
        let last = if history.len() > 0 {
            Some(history[0].content.clone())
        } else {
            None
        };
        Poller { last, last_change_count: change_count }
    }

    /// Takes note of the change count and returns whether the clipboard changed, so that its
    /// content is to be read.
    pub fn changed(&mut self, change_count: i64) -> (r: bool)
        ensures
            r == (change_count != old(self).last_change_count),
            final(self)@ == (PollerModel { last_change_count: change_count, ..old(self)@ }),
    {
        if change_count == self.last_change_count {
            false
        } else {
            self.last_change_count = change_count;
            true
        }
    }

    /// Takes note of the content that was read after a change. A new one goes into the
    /// history; returns whether it did, so that the history is to be saved. After a change
    /// that gave nothing, the next content counts as new.
    pub fn observe(
        &mut self,
        current: Option<ClipboardContent>,
        history: &mut Vec<ClipboardEntry>,
        now: u64,
    ) -> (pushed: bool)
        ensures
            final(self)@ == (PollerModel { last: opt_content(current), ..old(self)@ }),
            pushed == (current is Some && opt_content(current) != old(self)@.last),
            clips(final(history)@) == if pushed {
                with_entry(clips(old(history)@), current->0@, now)
            } else {
                clips(old(history)@)
            },
    {
        match current {
            Some(content) => {
                let known = match &self.last {
                    Some(last) => same_content(last, &content),
                    None => false,
                };
                if known {
                    false
                } else {
                    push_entry(history, content.clone(), now);
                    self.last = Some(content);
                    true
                }
            },
            None => {
                self.last = None;
                false
            },
        }
    }
}

// ── Laws ──────────────────────────────────────────────────────────────────────

/// The other entries of a history are those of another content, in their order.
pub proof fn law_others(h: Seq<ClipModel>, content: ContentModel)
    ensures
        others(h, content) == h.filter(|e: ClipModel| e.content != content),
    decreases h.len(),
{
    reveal(Seq::filter);
    let keep = |e: ClipModel| e.content != content;
    if h.len() > 0 {
        law_others(h.drop_last(), content);
    } else {
        assert(others(h, content) =~= h.filter(keep));
    }
}

/// A capture leaves a history of the captured content and then the entries of another content
/// in their order, and of all these the first hundred.
pub proof fn law_history_after_capture(h: Seq<ClipModel>, content: ContentModel, now: u64)
    ensures
        ({
            let rest = h.filter(|e: ClipModel| e.content != content);
            let w = with_entry(h, content, now);
            &&& w.len() == if rest.len() < 100 {
                rest.len() + 1
            } else {
                100
            }
            &&& w[0].content == content
            &&& w[0].captured_at == first_seen(h, content, now)
            &&& forall|k: int| 0 < k < w.len() ==> #[trigger] w[k] == rest[k - 1]
        }),
{
    law_others(h, content);
}

/// The row of a text is its first line without the white space around it, whole up to 80
/// characters; of a longer one there are 77 characters and an ellipsis.
pub proof fn law_text_preview(
    before: Seq<char>,
    core: Seq<char>,
    after: Seq<char>,
    rest: Seq<char>,
)
    requires
        all_white(before),
        all_white(after),
        core.len() > 0,
        !is_white(core[0]) && !is_white(core.last()),
        !(before + core + after).contains('\n'),
        (before + core + after).last() != '\r',
    ensures
        ({
            let shown = if core.len() <= 80 {
                core
            } else {
                core.subrange(0, 77) + seq!['\u{2026}']
            };
            let line = before + core + after;
            &&& content_preview(ContentModel::Text(line)) == shown
            &&& content_preview(ContentModel::Text(line + seq!['\n'] + rest)) == shown
        }),
{
    let line = before + core + after;
    law_lines(line, rest);
    law_trimmed(before, core, after);
    if core.len() > 80 {
        assert(core.take(77).push('\u{2026}') =~= core.subrange(0, 77) + seq!['\u{2026}']);
    }
}

/// The row of an image tells its width and height.
pub proof fn law_image_preview(png: Seq<u8>, width: u32, height: u32)
    ensures
        content_preview(ContentModel::Image { png, width, height }) == "Screenshot "@ + decimal(
            width as nat,
        ) + seq!['x'] + decimal(height as nat),
{
    assert(content_preview(ContentModel::Image { png, width, height }) =~= "Screenshot "@
        + decimal(width as nat) + seq!['x'] + decimal(height as nat));
}

/// The second row of a text tells how many characters it has, and how many lines where it has
/// more than one.
pub proof fn law_text_subtitle(text: Seq<char>)
    ensures
        lines(text).len() <= 1 ==> content_subtitle(ContentModel::Text(text)) == decimal(text.len())
            + " chars"@,
        lines(text).len() > 1 ==> content_subtitle(ContentModel::Text(text)) == decimal(
            lines(text).len(),
        ) + " lines \u{b7} "@ + decimal(text.len()) + " chars"@,
{
}

/// Text that is not blank is captured, the whole of it, before any image; without such text an
/// image is, PNG before TIFF.
pub proof fn law_captured(pb: Pasteboard)
    requires
        !pb.concealed,
    ensures
        pb.text matches Some(t) && !all_white(t@) ==> pb.captured() == Some(
            ContentModel::Text(pb.text->0@),
        ),
        (pb.text matches Some(t) ==> all_white(t@)) ==> pb.captured() == match (
            Pasteboard::offered(pb.png, true),
            Pasteboard::offered(pb.tiff, false),
        ) {
            (Some(content), _) => Some(content),
            (None, other) => other,
        },
{
    if let Some(t) = pb.text {
        law_blank(t@);
    }
}

/// An image is kept with its very bytes and its size, up to eight mebibytes of PNG, and not at
/// all above that.
pub proof fn law_image_limit(width: u32, height: u32, png: Seq<u8>)
    ensures
        png.len() <= 8 * 1024 * 1024 ==> encoded_content(width, height, Some(png)) == Some(
            ContentModel::Image { png, width, height },
        ),
        png.len() > 8 * 1024 * 1024 ==> encoded_content(width, height, Some(png)) is None,
        encoded_content(width, height, None) is None,
{
}

/// A picture is captured with its own width and height, and the bytes that it was encoded to.
pub proof fn law_image_content(p: RasterModel, png: Seq<u8>)
    requires
        as_png(p) == Some(png),
    ensures
        png.len() <= 8 * 1024 * 1024 ==> image_content(Some(p)) == Some(
            ContentModel::Image { png, width: p.0, height: p.1 },
        ),
        png.len() > 8 * 1024 * 1024 ==> image_content(Some(p)) is None,
        image_content(None) is None,
{
}

/// The second row of an image tells its kind, its width and height, and its size.
pub proof fn law_image_subtitle(png: Seq<u8>, width: u32, height: u32)
    ensures
        content_subtitle(ContentModel::Image { png, width, height }) == "PNG \u{b7} "@ + decimal(
            width as nat,
        ) + seq!['x'] + decimal(height as nat) + " \u{b7} "@ + decimal(whole_kib(png.len()))
            + " KiB"@,
{
    assert(content_subtitle(ContentModel::Image { png, width, height }) =~= "PNG \u{b7} "@
        + decimal(width as nat) + seq!['x'] + decimal(height as nat) + " \u{b7} "@ + decimal(
        whole_kib(png.len()),
    ) + " KiB"@);
}

/// What stands for a content holds the whole of its text or its bytes; and the picture of an
/// entry is the one in its bytes.
pub proof fn law_content_view(text: String, png: Vec<u8>, width: u32, height: u32, since: u64)
    ensures
        ClipboardContent::Text(text)@ == ContentModel::Text(text@),
        (ClipboardContent::Image { png, width, height })@ == (ContentModel::Image {
            png: png@,
            width,
            height,
        }),
        (ClipboardEntry {
            content: ClipboardContent::Image { png, width, height },
            captured_at: since,
        }).picture() == decoded_rgba(png@),
        (ClipboardEntry {
            content: ClipboardContent::Text(text),
            captured_at: since,
        }).picture() is None,
{
}

/// The row of a text whose first line is blank is empty, whatever follows.
pub proof fn law_blank_preview(line: Seq<char>, rest: Seq<char>)
    requires
        all_white(line),
        !line.contains('\n'),
        line.len() > 0 ==> line.last() != '\r',
    ensures
        content_preview(ContentModel::Text(line)).len() == 0,
        content_preview(ContentModel::Text(line + seq!['\n'] + rest)).len() == 0,
{
    law_lines(line, rest);
    law_blank(line);
}

} // verus!
