//! Images in terminals that speak the Kitty graphics protocol directly:
//! Base64 text, transfer frames, and the placement commands that keep the
//! screen in step with what was drawn.
use vstd::prelude::*;
use crate::app::Rect;
use crate::text::{chars_of, decimal, owned, push_char, push_decimal, push_str, slice_chars, string_of};

verus! {

/// The ASCII code of the Base64 digit for `v` (below 64).
pub open spec fn base64_byte(v: nat) -> u8 {
    if v < 26 {
        (65 + v) as u8
    } else if v < 52 {
        (97 + v - 26) as u8
    } else if v < 62 {
        (48 + v - 52) as u8
    } else if v == 62 {
        43
    } else {
        47
    }
}

/// The Base64 digit for `v`.
pub open spec fn base64_char(v: nat) -> char {
    base64_byte(v) as char
}

/// Standard Base64 with `=` padding: each group of three bytes becomes
/// four digits; a final group of one or two bytes becomes two or three
/// digits and padding.
pub open spec fn base64_spec(b: Seq<u8>) -> Seq<char>
    decreases b.len(),
{
    if b.len() == 0 {
        Seq::empty()
    } else if b.len() == 1 {
        seq![base64_char((b[0] / 4) as nat), base64_char(((b[0] % 4) * 16) as nat), '=', '=']
    } else if b.len() == 2 {
        seq![
            base64_char((b[0] / 4) as nat),
            base64_char(((b[0] % 4) * 16 + b[1] / 16) as nat),
            base64_char(((b[1] % 16) * 4) as nat),
            '=',
        ]
    } else {
        seq![
            base64_char((b[0] / 4) as nat),
            base64_char(((b[0] % 4) * 16 + b[1] / 16) as nat),
            base64_char(((b[1] % 16) * 4 + b[2] / 64) as nat),
            base64_char((b[2] % 64) as nat),
        ] + base64_spec(b.skip(3))
    }
}

fn base64_digit(v: u8) -> (c: char)
    requires
        v < 64,
    ensures
        c == base64_char(v as nat),
{
    let b: u8 = if v < 26 {
        65 + v
    } else if v < 52 {
        97 + v - 26
    } else if v < 62 {
        48 + v - 52
    } else if v == 62 {
        43
    } else {
        47
    };
    b as char
}

/// Encodes bytes as standard Base64 with padding.
pub fn base64(bytes: &[u8]) -> (r: String)
    ensures
        r@ == base64_spec(bytes@),
{
    let mut encoded = String::new();
    let mut i: usize = 0;
    assert(bytes@.skip(0) =~= bytes@);
    while i < bytes.len()
        invariant
            0 <= i <= bytes@.len(),
            encoded@ + base64_spec(bytes@.skip(i as int)) == base64_spec(bytes@),
        decreases bytes@.len() - i,
    {
        let ghost rest = bytes@.skip(i as int);
        let ghost before = encoded@;
        let n = bytes.len() - i;
        let first = bytes[i];
        let second: u8 = if n > 1 { bytes[i + 1] } else { 0 };
        let third: u8 = if n > 2 { bytes[i + 2] } else { 0 };
        push_char(&mut encoded, base64_digit(first / 4));
        push_char(&mut encoded, base64_digit((first % 4) * 16 + second / 16));
        if n > 1 {
            push_char(&mut encoded, base64_digit((second % 16) * 4 + third / 64));
        } else {
            push_char(&mut encoded, '=');
        }
        if n > 2 {
            push_char(&mut encoded, base64_digit(third % 64));
        } else {
            push_char(&mut encoded, '=');
        }
        if n > 3 {
            assert(rest.skip(3) =~= bytes@.skip(i + 3));
            i += 3;
        } else {
            assert(bytes@.skip(bytes@.len() as int) =~= Seq::<u8>::empty());
            if n == 3 {
                assert(rest.skip(3) =~= Seq::<u8>::empty());
            }
            i = bytes.len();
        }
        assert(encoded@ + base64_spec(bytes@.skip(i as int)) =~= before + base64_spec(rest));
    }
    assert(bytes@.skip(i as int) =~= Seq::<u8>::empty());
    assert(encoded@ + Seq::<char>::empty() =~= encoded@);
    encoded
}

/// The identifier of an image: the low half of the process number above
/// the low half of a running count.
pub open spec fn image_id_spec(process: u32, sequence: u32) -> u32 {
    ((process % 65536) * 65536 + sequence % 65536) as u32
}

/// Makes the identifier of the `sequence`-th image of process `process`.
pub fn image_id(process: u32, sequence: u32) -> (r: u32)
    ensures
        r == image_id_spec(process, sequence),
{
    let high: u32 = (process & 0xffff) << 16u32;
    let low: u32 = sequence & 0xffff;
    assert(high == (process % 65536) * 65536) by (bit_vector)
        requires
            high == (process & 0xffff) << 16u32,
    ;
    assert(low == sequence % 65536) by (bit_vector)
        requires
            low == sequence & 0xffff,
    ;
    assert((high | low) == high + low) by (bit_vector)
        requires
            high == (process & 0xffff) << 16u32,
            low == sequence & 0xffff,
    ;
    high | low
}

/// The Base64 text of an image is sent in chunks of this many characters.
pub const CHUNK: usize = 4096;

/// The `k`-th transfer frame of `encoded` for image `id`: the first one
/// carries the transfer's parameters, each says whether more follow.
pub open spec fn transfer_frame(encoded: Seq<char>, id: u32, k: nat) -> Seq<char> {
    let n = encoded.len();
    let start = k * 4096;
    let end = if start + 4096 < n {
        start + 4096
    } else {
        n
    };
    let more = if end < n {
        "1"@
    } else {
        "0"@
    };
    (if k == 0 {
        "\x1b_Ga=t,f=100,t=d,i="@ + decimal(id as nat) + ",q=2,m="@ + more + ";"@
    } else {
        "\x1b_Gm="@ + more + ";"@
    }) + encoded.subrange(start as int, end as int) + "\x1b\\"@
}

/// The transfer frames of `encoded` from the `k`-th on.
pub open spec fn transfer_from(encoded: Seq<char>, id: u32, k: nat) -> Seq<char>
    decreases encoded.len() - k,
{
    if k * 4096 >= encoded.len() {
        Seq::empty()
    } else {
        transfer_frame(encoded, id, k) + transfer_from(encoded, id, k + 1)
    }
}

/// The commands that send the Base64 text `encoded` of image `id`.
pub fn transfer(encoded: &str, id: u32) -> (r: String)
    ensures
        r@ == transfer_from(encoded@, id, 0),
{
    let chars = chars_of(encoded);
    let n = chars.len();
    let mut out = String::new();
    let mut k: usize = 0;
    let mut start: usize = 0;
    assert(out@ + transfer_from(chars@, id, 0) =~= transfer_from(chars@, id, 0));
    while start < n
        invariant
            k <= start,
            n == chars@.len(),
            chars@ == encoded@,
            start <= n,
            start == k * 4096 || (start == n && k * 4096 >= n),
            out@ + transfer_from(chars@, id, k as nat) == transfer_from(chars@, id, 0),
        decreases n - start,
    {
        let ghost before = out@;
        let end: usize = if n - start > 4096 { start + 4096 } else { n };
        let more = if end < n { "1" } else { "0" };
        if k == 0 {
            push_str(&mut out, "\x1b_Ga=t,f=100,t=d,i=");
            push_decimal(&mut out, id as u64);
            push_str(&mut out, ",q=2,m=");
            push_str(&mut out, more);
            push_str(&mut out, ";");
        } else {
            push_str(&mut out, "\x1b_Gm=");
            push_str(&mut out, more);
            push_str(&mut out, ";");
        }
        let chunk = string_of(slice_chars(&chars, start, end).as_slice());
        push_str(&mut out, chunk.as_str());
        push_str(&mut out, "\x1b\\");
        assert(out@ =~= before + transfer_frame(chars@, id, k as nat));
        assert(transfer_from(chars@, id, k as nat) == transfer_frame(chars@, id, k as nat)
            + transfer_from(chars@, id, (k + 1) as nat));
        assert(out@ + transfer_from(chars@, id, (k + 1) as nat) =~= before + transfer_from(
            chars@,
            id,
            k as nat,
        ));
        proof {
            if end == n {
                assert((k + 1) * 4096 >= n) by (nonlinear_arith)
                    requires
                        start == k * 4096, n - start <= 4096,
                ;
            } else {
                assert(end == (k + 1) * 4096) by (nonlinear_arith)
                    requires
                        start == k * 4096, end == start + 4096,
                ;
            }
        }
        k = k + 1;
        start = end;
    }
    assert(transfer_from(chars@, id, k as nat) == Seq::<char>::empty());
    out
}

/// A size in terminal cells.
#[derive(Debug, Clone, Copy, PartialEq, Eq, Structural)]
pub struct CellSize {
    pub width: u16,
    pub height: u16,
}

/// An image ready to be sent: its identifier, its size in cells, and the
/// commands that transfer it.
#[derive(Debug, Clone)]
pub struct LegacyImage {
    pub id: u32,
    pub size: CellSize,
    pub transfer: String,
}

impl LegacyImage {
    /// Prepares the PNG `png` of `size` cells as image `id`.
    pub fn new(png: &[u8], size: CellSize, id: u32) -> (r: LegacyImage)
        ensures
            r.id == id,
            r.size == size,
            r.transfer@ == transfer_from(base64_spec(png@), id, 0),
    {
        let encoded = base64(png);
        LegacyImage { id, size, transfer: transfer(encoded.as_str(), id) }
    }
}

/// The area of the last entry for `id`.
pub open spec fn area_of(entries: Seq<(u32, Rect)>, id: u32) -> Option<Rect>
    decreases entries.len(),
{
    if entries.len() == 0 {
        None
    } else if entries.last().0 == id {
        Some(entries.last().1)
    } else {
        area_of(entries.drop_last(), id)
    }
}

/// The position of the entry for `id`.
pub open spec fn index_of(entries: Seq<(u32, Rect)>, id: u32) -> Option<int>
    decreases entries.len(),
{
    if entries.len() == 0 {
        None
    } else if entries.last().0 == id {
        Some(entries.len() - 1)
    } else {
        index_of(entries.drop_last(), id)
    }
}

/// The identifiers and areas of images to place, one entry per image: the
/// last area given to it, in the order the images first came.
pub open spec fn placed(items: Seq<(u32, Rect)>) -> Seq<(u32, Rect)>
    decreases items.len(),
{
    if items.len() == 0 {
        Seq::empty()
    } else {
        let r = placed(items.drop_last());
        let (id, area) = items.last();
        match index_of(r, id) {
            Some(j) => r.update(j, (id, area)),
            None => r.push((id, area)),
        }
    }
}

/// The identifier and area of each pending image.
pub open spec fn pending_items(pending: Seq<(LegacyImage, Rect)>) -> Seq<(u32, Rect)> {
    pending.map_values(|p: (LegacyImage, Rect)| (p.0.id, p.1))
}

/// The command that removes the placements of image `id`.
pub open spec fn delete_command(id: u32) -> Seq<char> {
    "\x1b_Ga=d,d=I,i="@ + decimal(id as nat) + ",q=2\x1b\\"@
}

/// The commands that place `image` over `area`: save the cursor, move to
/// the area's corner, send the image, place it over the area's cells
/// without moving the cursor, and restore the cursor.
pub open spec fn place_command(image: LegacyImage, area: Rect) -> Seq<char> {
    "\x1b7\x1b["@ + decimal(area.y as nat + 1) + ";"@ + decimal(area.x as nat + 1) + "H"@
        + image.transfer@ + "\x1b_Ga=p,i="@ + decimal(image.id as nat) + ",c="@ + decimal(
        area.width as nat,
    ) + ",r="@ + decimal(area.height as nat) + ",C=1,q=2\x1b\\\x1b8"@
}

/// The removals: for each visible image, when the screen was invalidated
/// or it is not to stay in the same area.
pub open spec fn removals(visible: Seq<(u32, Rect)>, next: Seq<(u32, Rect)>, invalidated: bool) -> Seq<
    char,
>
    decreases visible.len(),
{
    if visible.len() == 0 {
        Seq::empty()
    } else {
        let (id, area) = visible.last();
        removals(visible.drop_last(), next, invalidated) + if invalidated || area_of(next, id)
            != Some(area) {
            delete_command(id)
        } else {
            Seq::empty()
        }
    }
}

/// The placements: for each pending image, unless the screen is valid and
/// it is already visible in the same area.
pub open spec fn placements_text(
    pending: Seq<(LegacyImage, Rect)>,
    visible: Seq<(u32, Rect)>,
    invalidated: bool,
) -> Seq<char>
    decreases pending.len(),
{
    if pending.len() == 0 {
        Seq::empty()
    } else {
        let (image, area) = pending.last();
        placements_text(pending.drop_last(), visible, invalidated) + if !invalidated && area_of(
            visible,
            image.id,
        ) == Some(area) {
            Seq::empty()
        } else {
            place_command(image, area)
        }
    }
}

/// Images on screen and those drawn in the current frame.
pub struct Placements {
    pub visible: Vec<(u32, Rect)>,
    pub pending: Vec<(LegacyImage, Rect)>,
    pub viewport: Option<Rect>,
    pub invalidated: bool,
}

impl Default for Placements {
    fn default() -> (r: Placements)
        ensures
            r.visible@.len() == 0,
            r.pending@.len() == 0,
            r.viewport is None,
            !r.invalidated,
    {
        Placements { visible: Vec::new(), pending: Vec::new(), viewport: None, invalidated: false }
    }
}

fn find_entry(entries: &Vec<(u32, Rect)>, id: u32) -> (r: Option<usize>)
    ensures
        match r {
            Some(j) => index_of(entries@, id) == Some(j as int) && j < entries@.len(),
            None => index_of(entries@, id) is None,
        },
{
    let mut i: usize = entries.len();
    assert(entries@.take(i as int) =~= entries@);
    while i > 0
        invariant
            0 <= i <= entries@.len(),
            index_of(entries@, id) == index_of(entries@.take(i as int), id),
        decreases i,
    {
        assert(entries@.take(i as int).drop_last() =~= entries@.take(i - 1));
        if entries[i - 1].0 == id {
            return Some(i - 1);
        }
        i -= 1;
    }
    None
}

proof fn lemma_index_area(entries: Seq<(u32, Rect)>, id: u32)
    ensures
        match index_of(entries, id) {
            Some(j) => 0 <= j < entries.len() && entries[j].0 == id && area_of(entries, id) == Some(
                entries[j].1,
            ),
            None => area_of(entries, id) is None,
        },
    decreases entries.len(),
{
    if entries.len() > 0 {
        lemma_index_area(entries.drop_last(), id);
    }
}

fn area_for(entries: &Vec<(u32, Rect)>, id: u32) -> (r: Option<Rect>)
    ensures
        r == area_of(entries@, id),
{
    proof {
        lemma_index_area(entries@, id);
    }
    match find_entry(entries, id) {
        Some(j) => Some(entries[j].1),
        None => None,
    }
}

fn push_delete(out: &mut String, id: u32)
    ensures
        final(out)@ == old(out)@ + delete_command(id),
{
    push_str(out, "\x1b_Ga=d,d=I,i=");
    push_decimal(out, id as u64);
    push_str(out, ",q=2\x1b\\");
    assert(final(out)@ =~= old(out)@ + delete_command(id));
}

fn push_place(out: &mut String, image: &LegacyImage, area: Rect)
    ensures
        final(out)@ == old(out)@ + place_command(*image, area),
{
    push_str(out, "\x1b7\x1b[");
    push_decimal(out, area.y as u64 + 1);
    push_str(out, ";");
    push_decimal(out, area.x as u64 + 1);
    push_str(out, "H");
    push_str(out, image.transfer.as_str());
    push_str(out, "\x1b_Ga=p,i=");
    push_decimal(out, image.id as u64);
    push_str(out, ",c=");
    push_decimal(out, area.width as u64);
    push_str(out, ",r=");
    push_decimal(out, area.height as u64);
    push_str(out, ",C=1,q=2\x1b\\\x1b8");
    assert(final(out)@ =~= old(out)@ + place_command(*image, area));
}

impl Placements {
    /// Starts a frame: nothing is drawn in it yet.
    pub fn begin(&mut self)
        ensures
            final(self).pending@.len() == 0,
            final(self).visible@ == old(self).visible@,
            final(self).viewport == old(self).viewport,
            final(self).invalidated == old(self).invalidated,
    {
        self.pending = Vec::new();
    }

    /// Draws `image` over `area` in the current frame.
    pub fn push(&mut self, image: LegacyImage, area: Rect)
        ensures
            final(self).pending@ == old(self).pending@.push((image, area)),
            final(self).visible@ == old(self).visible@,
            final(self).viewport == old(self).viewport,
            final(self).invalidated == old(self).invalidated,
    {
        self.pending.push((image, area));
    }

    /// Records the terminal's area; a change invalidates what is on screen.
    pub fn set_viewport(&mut self, area: Rect)
        ensures
            final(self).viewport == Some(area),
            final(self).invalidated == (old(self).invalidated || old(self).viewport != Some(area)),
            final(self).pending@ == old(self).pending@,
            final(self).visible@ == old(self).visible@,
    {
        let changed = match self.viewport {
            Some(previous) => previous != area,
            None => true,
        };
        if changed {
            self.invalidated = true;
        }
        self.viewport = Some(area);
    }

    /// Brings the screen in step with the frame: returns the commands that
    /// remove the images that left or moved (all of them when the screen
    /// was invalidated) and that place the images that are new or moved
    /// (all of them when invalidated); the frame's images are then the
    /// visible ones.
    pub fn flush(&mut self) -> (r: String)
        ensures
            r@ == removals(
                old(self).visible@,
                placed(pending_items(old(self).pending@)),
                old(self).invalidated,
            ) + placements_text(old(self).pending@, old(self).visible@, old(self).invalidated),
            final(self).visible@ == placed(pending_items(old(self).pending@)),
            !final(self).invalidated,
            final(self).pending@ == old(self).pending@,
            final(self).viewport == old(self).viewport,
    {
        let ghost items = pending_items(self.pending@);
        let mut next: Vec<(u32, Rect)> = Vec::new();
        let mut i: usize = 0;
        while i < self.pending.len()
            invariant
                0 <= i <= self.pending@.len(),
                items == pending_items(self.pending@),
                next@ == placed(items.take(i as int)),
            decreases self.pending@.len() - i,
        {
            assert(items.take(i + 1).drop_last() =~= items.take(i as int));
            assert(items.take(i + 1).last() == (self.pending@[i as int].0.id, self.pending@[i as int].1));
            let id = self.pending[i].0.id;
            let area = self.pending[i].1;
            match find_entry(&next, id) {
                Some(j) => {
                    next.set(j, (id, area));
                },
                None => {
                    next.push((id, area));
                },
            }
            i += 1;
        }
        assert(items.take(i as int) =~= items);
        let mut out = String::new();
        let mut k: usize = 0;
        assert(self.visible@.take(0) =~= Seq::<(u32, Rect)>::empty());
        while k < self.visible.len()
            invariant
                0 <= k <= self.visible@.len(),
                out@ == removals(self.visible@.take(k as int), next@, self.invalidated),
            decreases self.visible@.len() - k,
        {
            assert(self.visible@.take(k + 1).drop_last() =~= self.visible@.take(k as int));
            let (id, area) = self.visible[k];
            let keep = match area_for(&next, id) {
                Some(a) => a == area,
                None => false,
            };
            if self.invalidated || !keep {
                push_delete(&mut out, id);
            }
            assert(out@ =~= removals(self.visible@.take(k + 1), next@, self.invalidated));
            k += 1;
        }
        assert(self.visible@.take(k as int) =~= self.visible@);
        let ghost deleted = out@;
        let mut m: usize = 0;
        assert(self.pending@.take(0) =~= Seq::<(LegacyImage, Rect)>::empty());
        assert(out@ =~= deleted + placements_text(self.pending@.take(0), self.visible@, self.invalidated));
        while m < self.pending.len()
            invariant
                0 <= m <= self.pending@.len(),
                out@ == deleted + placements_text(self.pending@.take(m as int), self.visible@, self.invalidated),
            decreases self.pending@.len() - m,
        {
            assert(self.pending@.take(m + 1).drop_last() =~= self.pending@.take(m as int));
            let area = self.pending[m].1;
            let same = match area_for(&self.visible, self.pending[m].0.id) {
                Some(a) => a == area,
                None => false,
            };
            if self.invalidated || !same {
                push_place(&mut out, &self.pending[m].0, area);
            }
            assert(out@ =~= deleted + placements_text(self.pending@.take(m + 1), self.visible@, self.invalidated));
            m += 1;
        }
        assert(self.pending@.take(m as int) =~= self.pending@);
        self.visible = next;
        self.invalidated = false;
        out
    }
}

} // verus!
