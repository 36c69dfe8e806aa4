//! Names of the frame files of one capture job.
//!
//! A frame is stored as `screenshot-<width>x<height>-<index>.png`, the index
//! written with ten decimal digits, zeros in front. Every `u32` index fits in
//! ten digits, so within one job the names sort as the indices do.

use vstd::prelude::*;
use vstd::string::*;
use vstd::utf8::*;
use crate::listing::{
    comes_before, in_name_order, is_png_name, name_key, png_suffix, precedes_at,
};

verus! {

/// The number of digits in which a frame index is written.
pub const INDEX_DIGITS: u32 = 10;

/// The character of a decimal digit.
pub open spec fn digit_char(d: nat) -> char {
    if d == 0 {
        '0'
    } else if d == 1 {
        '1'
    } else if d == 2 {
        '2'
    } else if d == 3 {
        '3'
    } else if d == 4 {
        '4'
    } else if d == 5 {
        '5'
    } else if d == 6 {
        '6'
    } else if d == 7 {
        '7'
    } else if d == 8 {
        '8'
    } else {
        '9'
    }
}

/// A number in decimal, without zeros in front.
pub open spec fn decimal(n: nat) -> Seq<char>
    decreases n,
{
    if n < 10 {
        seq![digit_char(n)]
    } else {
        decimal(n / 10).push(digit_char(n % 10))
    }
}

/// The last `width` decimal digits of a number, zeros in front where it has
/// fewer.
pub open spec fn padded(n: nat, width: nat) -> Seq<char>
    decreases width,
{
    if width == 0 {
        Seq::empty()
    } else {
        padded(n / 10, (width - 1) as nat).push(digit_char(n % 10))
    }
}

/// The name of the file that holds frame `index` of a job that captures a
/// region of the given size.
pub open spec fn frame_name(width: nat, height: nat, index: nat) -> Seq<char> {
    "screenshot-"@ + decimal(width) + "x"@ + decimal(height) + "-"@ + padded(
        index,
        INDEX_DIGITS as nat,
    ) + ".png"@
}

fn digit_str(d: u32) -> (s: &'static str)
    requires
        d < 10,
    ensures
        s@ == seq![digit_char(d as nat)],
{
    proof {
        reveal_strlit("0");
        reveal_strlit("1");
        reveal_strlit("2");
        reveal_strlit("3");
        reveal_strlit("4");
        reveal_strlit("5");
        reveal_strlit("6");
        reveal_strlit("7");
        reveal_strlit("8");
        reveal_strlit("9");
    }
    let s = if d == 0 {
        "0"
    } else if d == 1 {
        "1"
    } else if d == 2 {
        "2"
    } else if d == 3 {
        "3"
    } else if d == 4 {
        "4"
    } else if d == 5 {
        "5"
    } else if d == 6 {
        "6"
    } else if d == 7 {
        "7"
    } else if d == 8 {
        "8"
    } else {
        "9"
    };
    assert(s@ =~= seq![digit_char(d as nat)]);
    s
}

fn push_decimal(out: &mut String, n: u32)
    ensures
        final(out)@ == old(out)@ + decimal(n as nat),
    decreases n,
{
    if n >= 10 {
        push_decimal(out, n / 10);
    }
    out.append(digit_str(n % 10));
    assert(old(out)@ + decimal(n as nat) =~= out@);
}

fn push_padded(out: &mut String, n: u32, width: u32)
    ensures
        final(out)@ == old(out)@ + padded(n as nat, width as nat),
    decreases width,
{
    if width > 0 {
        push_padded(out, n / 10, width - 1);
        out.append(digit_str(n % 10));
    }
    assert(old(out)@ + padded(n as nat, width as nat) =~= out@);
}

/// The name under which frame `index` of a job is stored, given the size of
/// the region that the job captures.
pub fn frame_file_name(width: u32, height: u32, index: u32) -> (name: String)
    ensures
        name@ == frame_name(width as nat, height as nat, index as nat),
{
    let mut name = String::from_str("screenshot-");
    push_decimal(&mut name, width);
    name.append("x");
    push_decimal(&mut name, height);
    name.append("-");
    push_padded(&mut name, index, INDEX_DIGITS);
    name.append(".png");
    name
}

/// Ten to the power of `n`.
pub open spec fn pow10(n: nat) -> nat
    decreases n,
{
    if n == 0 {
        1
    } else {
        10 * pow10((n - 1) as nat)
    }
}

proof fn lemma_decimal_shape(n: nat)
    ensures
        decimal(n).len() >= 1,
        is_ascii_chars(decimal(n)),
    decreases n,
{
    if n >= 10 {
        lemma_decimal_shape(n / 10);
    }
}

proof fn lemma_padded_shape(n: nat, width: nat)
    ensures
        padded(n, width).len() == width,
        is_ascii_chars(padded(n, width)),
    decreases width,
{
    if width > 0 {
        lemma_padded_shape(n / 10, (width - 1) as nat);
    }
}

/// Of two numbers that fit in `width` digits, the smaller one has the smaller
/// digit at the first place where their padded forms differ. Returns that
/// place.
proof fn lemma_padded_order(a: nat, b: nat, width: nat) -> (k: int)
    requires
        a < b < pow10(width),
    ensures
        0 <= k < width,
        padded(a, width).take(k) == padded(b, width).take(k),
        (padded(a, width)[k] as u8) < (padded(b, width)[k] as u8),
    decreases width,
{
    let shorter = (width - 1) as nat;
    lemma_padded_shape(a / 10, shorter);
    lemma_padded_shape(b / 10, shorter);
    if a / 10 < b / 10 {
        let k = lemma_padded_order(a / 10, b / 10, shorter);
        assert(padded(a, width).take(k) =~= padded(a / 10, shorter).take(k));
        assert(padded(b, width).take(k) =~= padded(b / 10, shorter).take(k));
        k
    } else {
        assert(a / 10 == b / 10);
        assert(padded(a, width).take(shorter as int) =~= padded(a / 10, shorter));
        assert(padded(b, width).take(shorter as int) =~= padded(b / 10, shorter));
        shorter as int
    }
}

proof fn lemma_frame_name_parts(width: nat, height: nat, index: nat) -> (head: Seq<char>)
    ensures
        head == "screenshot-"@ + decimal(width) + "x"@ + decimal(height) + "-"@,
        frame_name(width, height, index) == head + padded(index, INDEX_DIGITS as nat) + ".png"@,
        is_ascii_chars(head),
        is_ascii_chars(frame_name(width, height, index)),
        frame_name(width, height, index).len() == head.len() + 14,
        ".png"@ == seq!['.', 'p', 'n', 'g'],
{
    reveal_strlit("screenshot-");
    reveal_strlit("x");
    reveal_strlit("-");
    reveal_strlit(".png");
    lemma_decimal_shape(width);
    lemma_decimal_shape(height);
    lemma_padded_shape(index, INDEX_DIGITS as nat);
    assert(".png"@ =~= seq!['.', 'p', 'n', 'g']);
    "screenshot-"@ + decimal(width) + "x"@ + decimal(height) + "-"@
}

/// Every frame name has the extension `png`.
pub proof fn lemma_frame_name_is_png(width: nat, height: nat, index: nat)
    ensures
        is_png_name(frame_name(width, height, index)),
{
    let name = frame_name(width, height, index);
    let head = lemma_frame_name_parts(width, height, index);
    is_ascii_chars_encode_utf8(name);
    let key = name_key(name);
    let n = key.len() as int;
    let tail = key.skip(n - 4);
    assert(tail[0] == name[n - 4] as u8);
    assert(tail[1] == name[n - 3] as u8);
    assert(tail[2] == name[n - 2] as u8);
    assert(tail[3] == name[n - 1] as u8);
    assert(name[n - 4] == ".png"@[0]);
    assert(name[n - 3] == ".png"@[1]);
    assert(name[n - 2] == ".png"@[2]);
    assert(name[n - 1] == ".png"@[3]);
    assert(tail =~= png_suffix());
}

/// Within one job the names sort as the frames were taken: the name of an
/// earlier frame comes before the name of a later one, for all indices that
/// a `u32` can hold.
pub proof fn lemma_frame_names_sort_by_index(width: nat, height: nat, i: nat, j: nat)
    requires
        i < j <= u32::MAX,
    ensures
        comes_before(
            name_key(frame_name(width, height, i)),
            name_key(frame_name(width, height, j)),
        ),
{
    let digits = INDEX_DIGITS as nat;
    let first = frame_name(width, height, i);
    let second = frame_name(width, height, j);
    let head = lemma_frame_name_parts(width, height, i);
    let same_head = lemma_frame_name_parts(width, height, j);
    assert(pow10(10) == 10_000_000_000nat) by {
        reveal_with_fuel(pow10, 11);
    }
    let k = lemma_padded_order(i, j, digits);
    lemma_padded_shape(i, digits);
    lemma_padded_shape(j, digits);
    is_ascii_chars_encode_utf8(first);
    is_ascii_chars_encode_utf8(second);
    let at = head.len() + k;
    let a = name_key(first);
    let b = name_key(second);
    assert forall|m: int| 0 <= m < at implies a[m] == b[m] by {
        assert(a[m] == first[m] as u8);
        assert(b[m] == second[m] as u8);
        if m >= head.len() {
            let d = m - head.len();
            assert(padded(i, digits).take(k)[d] == padded(j, digits).take(k)[d]);
            assert(first[m] == padded(i, digits)[d]);
            assert(second[m] == padded(j, digits)[d]);
        } else {
            assert(first[m] == head[m]);
            assert(second[m] == head[m]);
        }
    }
    assert(a.take(at) =~= b.take(at));
    assert(first[at] == padded(i, digits)[k]);
    assert(second[at] == padded(j, digits)[k]);
    assert(a[at] == first[at] as u8);
    assert(b[at] == second[at] as u8);
    assert(precedes_at(a, b, at));
}

/// Reading a job's frames in name order is reading them in capture order.
/// When a list in name order holds the names of frames with different
/// indices, the indices ascend along the list.
pub proof fn lemma_name_order_is_capture_order(
    width: nat,
    height: nat,
    indices: Seq<nat>,
    names: Seq<Seq<char>>,
)
    requires
        names.len() == indices.len(),
        forall|i: int|
            0 <= i < indices.len() ==> indices[i] <= u32::MAX && #[trigger] names[i] == frame_name(
                width,
                height,
                indices[i],
            ),
        forall|i: int, j: int| 0 <= i < j < indices.len() ==> indices[i] != indices[j],
        in_name_order(names),
    ensures
        forall|i: int, j: int| 0 <= i < j < indices.len() ==> indices[i] < indices[j],
{
    assert forall|i: int, j: int| 0 <= i < j < indices.len() implies indices[i] < indices[j] by {
        assert(names[i] == frame_name(width, height, indices[i]));
        assert(names[j] == frame_name(width, height, indices[j]));
        if indices[j] < indices[i] {
            lemma_frame_names_sort_by_index(width, height, indices[j], indices[i]);
            assert(comes_before(name_key(names[j]), name_key(names[i])));
        }
    }
}

} // verus!
