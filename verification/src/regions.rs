//! Recognized text regions: line bounds, paragraph grouping and the
//! recognizer-language choice.
//!
//! The recognizer yields raw lines with bounding boxes in frame pixels.
//! Adjacent lines are merged into paragraph-level regions: a line joins
//! the open paragraph when its vertical gap to the previous line lies in
//! `[0, 0.8 * previous line height)` and the horizontal offset between
//! the line starts stays under twice the previous line height.

use vstd::prelude::*;

verus! {

use crate::text::chars_vec;
use crate::text::push_char;
use vstd::string::StringExecFns;

/// A recognized line before grouping, box in frame pixel coordinates.
pub struct RawLine {
    pub text: String,
    pub x: i32,
    pub y: i32,
    pub width: i32,
    pub height: i32,
}

/// A paragraph-level region of recognized text.
pub struct TextRegion {
    pub text: String,
    pub x: i32,
    pub y: i32,
    pub width: i32,
    pub height: i32,
}

/// The mathematical image of a line or region.
pub ghost struct RegionView {
    pub text: Seq<char>,
    pub x: int,
    pub y: int,
    pub width: int,
    pub height: int,
}

impl RawLine {
    pub open spec fn view_spec(self) -> RegionView {
        RegionView {
            text: self.text@,
            x: self.x as int,
            y: self.y as int,
            width: self.width as int,
            height: self.height as int,
        }
    }
}

impl TextRegion {
    pub open spec fn view_spec(self) -> RegionView {
        RegionView {
            text: self.text@,
            x: self.x as int,
            y: self.y as int,
            width: self.width as int,
            height: self.height as int,
        }
    }
}

pub open spec fn line_views(ls: Seq<RawLine>) -> Seq<RegionView> {
    ls.map_values(|l: RawLine| l.view_spec())
}

pub open spec fn region_views(rs: Seq<TextRegion>) -> Seq<RegionView> {
    rs.map_values(|r: TextRegion| r.view_spec())
}

/// Whether `line` continues the paragraph whose last line lay at `prev`:
/// the vertical gap is in `[0, 0.8 * prev.height)` and the line starts
/// are within `2 * prev.height` of each other.
pub open spec fn merge_ok(prev: RegionView, line: RegionView) -> bool {
    let gap = line.y - (prev.y + prev.height);
    let xd = if line.x >= prev.x {
        line.x - prev.x
    } else {
        prev.x - line.x
    };
    &&& 0 <= gap
    &&& 5 * gap < 4 * prev.height
    &&& xd < 2 * prev.height
}

/// `cur` extended by one more line: texts joined with a single space, the
/// origin kept, width and height the maxima over the merged lines.
pub open spec fn merged(cur: RegionView, line: RegionView) -> RegionView {
    RegionView {
        text: cur.text + seq![' '] + line.text,
        x: cur.x,
        y: cur.y,
        width: if line.width > cur.width {
            line.width
        } else {
            cur.width
        },
        height: if line.height > cur.height {
            line.height
        } else {
            cur.height
        },
    }
}

/// Grouping of the remaining lines `ls`, with `cur` the open paragraph
/// and `prev` the previous line's box.
pub open spec fn group_rec(ls: Seq<RegionView>, cur: RegionView, prev: RegionView) -> Seq<
    RegionView,
>
    decreases ls.len(),
{
    if ls.len() == 0 {
        seq![cur]
    } else {
        let l = ls[0];
        if merge_ok(prev, l) {
            group_rec(ls.drop_first(), merged(cur, l), l)
        } else {
            seq![cur] + group_rec(ls.drop_first(), l, l)
        }
    }
}

/// The paragraph-level regions of a sequence of raw lines.
pub open spec fn group_spec(ls: Seq<RegionView>) -> Seq<RegionView> {
    if ls.len() == 0 {
        Seq::empty()
    } else {
        group_rec(ls.drop_first(), ls[0], ls[0])
    }
}

/// Merge adjacent raw lines into paragraph-level regions. An empty input
/// yields an empty output, never an error.
pub fn group_into_paragraphs(lines: Vec<RawLine>) -> (r: Vec<TextRegion>)
    ensures
        region_views(r@) == group_spec(line_views(lines@)),
{
    let ghost lv = line_views(lines@);
    let mut paragraphs: Vec<TextRegion> = Vec::new();
    if lines.len() == 0 {
        proof {
            assert(region_views(paragraphs@) =~= group_spec(lv));
        }
        return paragraphs;
    }
    let mut current_text: String = lines[0].text.clone();
    let mut current_x: i32 = lines[0].x;
    let mut current_y: i32 = lines[0].y;
    let mut current_max_width: i32 = lines[0].width;
    let mut current_max_height: i32 = lines[0].height;
    let mut prev_y: i32 = lines[0].y;
    let mut prev_height: i32 = lines[0].height;
    let mut prev_x: i32 = lines[0].x;
    let n = lines.len();
    let mut i: usize = 1;
    proof {
        assert(lv.skip(1) =~= lv.drop_first());
        assert(lv[0] == lines@[0].view_spec());
        assert((RegionView {
            text: current_text@,
            x: current_x as int,
            y: current_y as int,
            width: current_max_width as int,
            height: current_max_height as int,
        }) == lv[0]);
        assert(region_views(paragraphs@) + group_rec(lv.skip(1), lv[0], lv[0]) =~= group_rec(
            lv.skip(1),
            lv[0],
            lv[0],
        ));
    }
    while i < n
        invariant
            1 <= i <= n == lines@.len(),
            lv == line_views(lines@),
            group_spec(lv) == region_views(paragraphs@) + group_rec(
                lv.skip(i as int),
                RegionView {
                    text: current_text@,
                    x: current_x as int,
                    y: current_y as int,
                    width: current_max_width as int,
                    height: current_max_height as int,
                },
                RegionView {
                    text: lines@[i - 1].text@,
                    x: prev_x as int,
                    y: prev_y as int,
                    width: lines@[i - 1].width as int,
                    height: lines@[i - 1].height as int,
                },
            ),
            prev_x == lines@[i - 1].x,
            prev_y == lines@[i - 1].y,
            prev_height == lines@[i - 1].height,
        decreases n - i,
    {
        let ghost cur_v = RegionView {
            text: current_text@,
            x: current_x as int,
            y: current_y as int,
            width: current_max_width as int,
            height: current_max_height as int,
        };
        let ghost prev_v = RegionView {
            text: lines@[i - 1].text@,
            x: prev_x as int,
            y: prev_y as int,
            width: lines@[i - 1].width as int,
            height: lines@[i - 1].height as int,
        };
        proof {
            assert(lv.skip(i as int)[0] == lv[i as int]);
            assert(lv[i as int] == lines@[i as int].view_spec());
            assert(lv.skip(i as int).drop_first() =~= lv.skip(i as int + 1));
        }
        let gap: i64 = lines[i].y as i64 - (prev_y as i64 + prev_height as i64);
        let xd: i64 = if lines[i].x as i64 >= prev_x as i64 {
            lines[i].x as i64 - prev_x as i64
        } else {
            prev_x as i64 - lines[i].x as i64
        };
        if 0 <= gap && 5 * gap < 4 * (prev_height as i64) && xd < 2 * (prev_height as i64) {
            proof {
                assert(merge_ok(prev_v, lv[i as int]));
            }
            push_char(&mut current_text, ' ');
            current_text.append(lines[i].text.as_str());
            if lines[i].width > current_max_width {
                current_max_width = lines[i].width;
            }
            if lines[i].height > current_max_height {
                current_max_height = lines[i].height;
            }
            proof {
                assert(current_text@ =~= cur_v.text + seq![' '] + lines@[i as int].text@);
                assert(RegionView {
                    text: current_text@,
                    x: current_x as int,
                    y: current_y as int,
                    width: current_max_width as int,
                    height: current_max_height as int,
                } == merged(cur_v, lv[i as int]));
            }
        } else {
            proof {
                assert(!merge_ok(prev_v, lv[i as int]));
            }
            let region = TextRegion {
                text: current_text,
                x: current_x,
                y: current_y,
                width: current_max_width,
                height: current_max_height,
            };
            let ghost old_p = paragraphs@;
            paragraphs.push(region);
            proof {
                assert(region_views(paragraphs@) =~= region_views(old_p).push(cur_v));
                assert(region_views(old_p).push(cur_v) + group_rec(
                    lv.skip(i as int + 1),
                    lv[i as int],
                    lv[i as int],
                ) =~= region_views(old_p) + (seq![cur_v] + group_rec(
                    lv.skip(i as int + 1),
                    lv[i as int],
                    lv[i as int],
                )));
            }
            current_text = lines[i].text.clone();
            current_x = lines[i].x;
            current_y = lines[i].y;
            current_max_width = lines[i].width;
            current_max_height = lines[i].height;
        }
        prev_y = lines[i].y;
        prev_height = lines[i].height;
        prev_x = lines[i].x;
        i = i + 1;
    }
    let region = TextRegion {
        text: current_text,
        x: current_x,
        y: current_y,
        width: current_max_width,
        height: current_max_height,
    };
    let ghost cur_v = region.view_spec();
    let ghost old_p = paragraphs@;
    paragraphs.push(region);
    proof {
        assert(lv.skip(n as int).len() == 0);
        assert(region_views(paragraphs@) =~= region_views(old_p) + seq![cur_v]);
    }
    paragraphs
}

/// The bounding box of one recognized word, in frame pixels.
pub struct WordBox {
    pub x: i32,
    pub y: i32,
    pub width: i32,
    pub height: i32,
}

/// Greatest height among the boxes (0 for none).
pub open spec fn max_height(bs: Seq<WordBox>) -> int
    decreases bs.len(),
{
    if bs.len() == 0 {
        0
    } else {
        let m = max_height(bs.drop_last());
        if bs.last().height as int > m {
            bs.last().height as int
        } else {
            m
        }
    }
}

/// Greatest right edge `x + width` among the boxes (0 for none).
pub open spec fn max_right(bs: Seq<WordBox>) -> int
    decreases bs.len(),
{
    if bs.len() == 0 {
        0
    } else {
        let m = max_right(bs.drop_last());
        if bs.last().x + bs.last().width > m {
            bs.last().x + bs.last().width
        } else {
            m
        }
    }
}

/// The box of a whole recognized line: origin of its first word, height
/// the tallest word, width from the first word's left edge to the
/// rightmost word edge. Empty input has no box.
pub fn line_bounds(boxes: &Vec<WordBox>) -> (r: Option<(i64, i64, i64, i64)>)
    ensures
        match r {
            Some(b) => boxes@.len() > 0 && b.0 == boxes@[0].x && b.1 == boxes@[0].y && b.2
                == max_right(boxes@) - boxes@[0].x && b.3 == max_height(boxes@),
            None => boxes@.len() == 0,
        },
{
    if boxes.len() == 0 {
        return None;
    }
    let n = boxes.len();
    let mut mh: i64 = 0;
    let mut mr: i64 = 0;
    let mut i: usize = 0;
    while i < n
        invariant
            i <= n == boxes@.len(),
            mh == max_height(boxes@.take(i as int)),
            mr == max_right(boxes@.take(i as int)),
            0 <= mr < 0x1_0000_0000,
        decreases n - i,
    {
        proof {
            assert(boxes@.take(i + 1).drop_last() =~= boxes@.take(i as int));
            assert(boxes@.take(i + 1).last() == boxes@[i as int]);
        }
        let h = boxes[i].height as i64;
        if h > mh {
            mh = h;
        }
        let right = boxes[i].x as i64 + boxes[i].width as i64;
        if right > mr {
            mr = right;
        }
        i = i + 1;
    }
    proof {
        assert(boxes@.take(n as int) =~= boxes@);
    }
    Some((boxes[0].x as i64, boxes[0].y as i64, mr - boxes[0].x as i64, mh))
}

/// A language tag for the recognizer's preferred family: one that starts
/// with `en`, compared without regard to case.
pub open spec fn lang_tag_en(s: Seq<char>) -> bool {
    s.len() >= 2 && (s[0] == 'e' || s[0] == 'E') && (s[1] == 'n' || s[1] == 'N')
}

fn tag_is_en(s: &String) -> (r: bool)
    ensures
        r == lang_tag_en(s@),
{
    let v = chars_vec(s.as_str());
    if v.len() < 2 {
        false
    } else {
        (v[0] == 'e' || v[0] == 'E') && (v[1] == 'n' || v[1] == 'N')
    }
}

/// Choose the recognizer language at startup: the first installed tag of
/// the configured source family, else the first installed tag at all, and
/// nothing when no recognizer language exists on the host (the one fatal
/// setup case).
pub fn pick_ocr_language(tags: &Vec<String>) -> (r: Option<usize>)
    ensures
        match r {
            Some(i) => i < tags@.len() && (forall|j: int|
                0 <= j < i ==> !lang_tag_en(#[trigger] tags@[j]@)) && (lang_tag_en(tags@[i as int]@)
                || (i == 0 && forall|j: int| 0 <= j < tags@.len() ==> !lang_tag_en(
                    #[trigger] tags@[j]@,
                ))),
            None => tags@.len() == 0,
        },
{
    let n = tags.len();
    if n == 0 {
        return None;
    }
    let mut i: usize = 0;
    while i < n
        invariant
            i <= n == tags@.len(),
            forall|j: int| 0 <= j < i ==> !lang_tag_en(#[trigger] tags@[j]@),
        decreases n - i,
    {
        if tag_is_en(&tags[i]) {
            return Some(i);
        }
        i = i + 1;
    }
    Some(0)
}

} // verus!
