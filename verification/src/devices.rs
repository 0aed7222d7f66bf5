//! Device enumeration: the computed part.
//!
//! Audio devices come from the line-oriented output of a helper process;
//! this module turns that text (or its absence) into `AudioDevice` records:
//! one output device per non-blank trimmed line, then the synthetic default
//! input placeholder.  Display records are assembled here from the raw
//! numbers the OS enumeration reports.  The process and OS calls themselves
//! live in the surrounding application.

use vstd::prelude::*;
use crate::model::{AudioDevice, AudioDeviceView, DisplayInfo};
use crate::text::dec_digits;

verus! {

/// The whitespace that line trimming removes.
pub open spec fn is_space(c: char) -> bool {
    c == ' ' || c == '\t' || c == '\r'
}

/// `s` without leading whitespace.
pub open spec fn trim_start(s: Seq<char>) -> Seq<char>
    decreases s.len(),
{
    if s.len() > 0 && is_space(s[0]) {
        trim_start(s.subrange(1, s.len() as int))
    } else {
        s
    }
}

/// `s` without trailing whitespace.
pub open spec fn trim_end(s: Seq<char>) -> Seq<char>
    decreases s.len(),
{
    if s.len() > 0 && is_space(s.last()) {
        trim_end(s.drop_last())
    } else {
        s
    }
}

/// `s` without leading or trailing whitespace.
pub open spec fn trim(s: Seq<char>) -> Seq<char> {
    trim_end(trim_start(s))
}

/// The lines of `s` from position `i` on, the current line read so far
/// being `cur`.  Lines are separated by `'\n'`; the text after the last
/// separator is a line of its own (possibly empty).
pub open spec fn split_rest(s: Seq<char>, i: int, cur: Seq<char>) -> Seq<Seq<char>>
    decreases s.len() - i when 0 <= i <= s.len()
{
    if i == s.len() {
        seq![cur]
    } else if s[i] == '\n' {
        seq![cur] + split_rest(s, i + 1, Seq::empty())
    } else {
        split_rest(s, i + 1, cur.push(s[i]))
    }
}

/// All lines of `s`.
pub open spec fn split_lines(s: Seq<char>) -> Seq<Seq<char>> {
    split_rest(s, 0, Seq::empty())
}

/// The view of an output device discovered under the given name.
pub open spec fn output_device_view(idname: Seq<char>) -> AudioDeviceView {
    AudioDeviceView { id: idname, name: idname, is_default: false, device_type: "output"@ }
}

/// The view of the synthetic default output device.
pub open spec fn default_output_view() -> AudioDeviceView {
    AudioDeviceView {
        id: "default_output"@,
        name: "Default Output"@,
        is_default: true,
        device_type: "output"@,
    }
}

/// The view of the synthetic default input device placeholder.
pub open spec fn default_input_view() -> AudioDeviceView {
    AudioDeviceView {
        id: "default_input"@,
        name: "Default Input"@,
        is_default: true,
        device_type: "input"@,
    }
}

/// The devices a list of raw lines stands for: one output device per
/// non-blank trimmed line.
pub open spec fn devices_of_lines(ls: Seq<Seq<char>>) -> Seq<AudioDeviceView> {
    ls.map_values(|l: Seq<char>| trim(l)).filter(|l: Seq<char>| l.len() != 0).map_values(
        |l: Seq<char>| output_device_view(l),
    )
}

/// What enumeration reports for a helper listing: its non-blank lines as
/// output devices, then the default input placeholder.
pub open spec fn audio_devices_of_listing(out: Seq<char>) -> Seq<AudioDeviceView> {
    devices_of_lines(split_lines(out)) + seq![default_input_view()]
}

/// The views of an audio device list.
pub open spec fn aviews(ds: Seq<AudioDevice>) -> Seq<AudioDeviceView> {
    ds.map_values(|d: AudioDevice| d@)
}

/// The synthetic default output device.
pub fn default_output_device() -> (r: AudioDevice)
    ensures
        r@ == default_output_view(),
{
    AudioDevice {
        id: String::from_str("default_output"),
        name: String::from_str("Default Output"),
        is_default: true,
        device_type: String::from_str("output"),
    }
}

/// The synthetic default input device placeholder.
pub fn default_input_device() -> (r: AudioDevice)
    ensures
        r@ == default_input_view(),
{
    AudioDevice {
        id: String::from_str("default_input"),
        name: String::from_str("Default Input"),
        is_default: true,
        device_type: String::from_str("input"),
    }
}

/// The pair of synthetic devices reported where no enumeration exists.
pub fn default_audio_devices() -> (r: Vec<AudioDevice>)
    ensures
        aviews(r@) == seq![default_output_view(), default_input_view()],
{
    let mut r: Vec<AudioDevice> = Vec::new();
    r.push(default_output_device());
    r.push(default_input_device());
    proof {
        assert(aviews(r@) =~= seq![default_output_view(), default_input_view()]);
    }
    r
}

/// `s` with leading and trailing whitespace removed.
pub fn trim_str(s: &str) -> (r: String)
    ensures
        r@ == trim(s@),
{
    let n = s.unicode_len();
    let mut a: usize = 0;
    proof {
        assert(s@.subrange(0, n as int) =~= s@);
    }
    while a < n && is_space_exec(s.get_char(a))
        invariant
            0 <= a <= n,
            n == s@.len(),
            trim_start(s@) == trim_start(s@.subrange(a as int, n as int)),
        decreases n - a,
    {
        proof {
            let rem = s@.subrange(a as int, n as int);
            assert(rem[0] == s@[a as int]);
            assert(rem.subrange(1, rem.len() as int) =~= s@.subrange(a + 1, n as int));
        }
        a += 1;
    }
    proof {
        let rem = s@.subrange(a as int, n as int);
        if rem.len() > 0 {
            assert(rem[0] == s@[a as int]);
        }
        assert(trim_start(rem) == rem);
        assert(trim_start(s@) == s@.subrange(a as int, n as int));
    }
    let mut b: usize = n;
    while b > a && is_space_exec(s.get_char(b - 1))
        invariant
            a <= b <= n,
            n == s@.len(),
            trim_end(s@.subrange(a as int, n as int)) == trim_end(s@.subrange(a as int, b as int)),
        decreases b,
    {
        proof {
            let rem = s@.subrange(a as int, b as int);
            assert(rem.last() == s@[b - 1]);
            assert(rem.drop_last() =~= s@.subrange(a as int, b - 1));
        }
        b -= 1;
    }
    proof {
        let rem = s@.subrange(a as int, b as int);
        if rem.len() > 0 {
            assert(rem.last() == s@[b - 1]);
        }
        assert(trim_end(rem) == rem);
        assert(trim(s@) == s@.subrange(a as int, b as int));
    }
    let mut r = String::new();
    let mut k: usize = a;
    while k < b
        invariant
            a <= k <= b <= n,
            n == s@.len(),
            r@ == s@.subrange(a as int, k as int),
        decreases b - k,
    {
        crate::text::push_char(&mut r, s.get_char(k));
        proof {
            assert(s@.subrange(a as int, k + 1 as int) =~= s@.subrange(a as int, k as int).push(
                s@[k as int],
            ));
        }
        k += 1;
    }
    proof {
        assert(s@.subrange(a as int, a as int) =~= Seq::<char>::empty());
    }
    r
}

/// Whether `c` is trimmed whitespace, executable form.
pub fn is_space_exec(c: char) -> (b: bool)
    ensures
        b == is_space(c),
{
    c == ' ' || c == '\t' || c == '\r'
}

/// One discovered output device.
fn output_device_of(idname: String) -> (r: AudioDevice)
    ensures
        r@ == output_device_view(idname@),
{
    let id = idname.clone();
    AudioDevice {
        id,
        name: idname,
        is_default: false,
        device_type: String::from_str("output"),
    }
}

/// Finishing one line extends the devices of the lines read so far by the
/// line's device, if the line is not blank.
proof fn lemma_devices_of_lines_push(ls: Seq<Seq<char>>, l: Seq<char>)
    ensures
        devices_of_lines(ls.push(l)) == if trim(l).len() != 0 {
            devices_of_lines(ls).push(output_device_view(trim(l)))
        } else {
            devices_of_lines(ls)
        },
{
    reveal(Seq::filter);
    let tr = |x: Seq<char>| trim(x);
    let nonblank = |x: Seq<char>| x.len() != 0;
    let dev = |x: Seq<char>| output_device_view(x);
    assert(ls.push(l).map_values(tr) =~= ls.map_values(tr).push(trim(l)));
    let m = ls.map_values(tr);
    assert(m.push(trim(l)).drop_last() =~= m);
    assert(m.push(trim(l)).filter(nonblank) == if nonblank(trim(l)) {
        m.filter(nonblank).push(trim(l))
    } else {
        m.filter(nonblank)
    });
    if trim(l).len() != 0 {
        assert(m.filter(nonblank).push(trim(l)).map_values(dev) =~= m.filter(nonblank).map_values(
            dev,
        ).push(output_device_view(trim(l))));
    }
}

/// Builds the audio device list a helper listing stands for: one output
/// device per non-blank trimmed line, in order, then the default input
/// placeholder.  Where the helper could not be run at all (`None`), the
/// two synthetic defaults stand in.
pub fn audio_devices_from_listing(listing: Option<&str>) -> (r: Vec<AudioDevice>)
    ensures
        match listing {
            Some(out) => aviews(r@) == audio_devices_of_listing(out@),
            None => aviews(r@) == seq![default_output_view(), default_input_view()],
        },
{
    match listing {
        None => default_audio_devices(),
        Some(out) => {
            let n = out.unicode_len();
            let mut devices: Vec<AudioDevice> = Vec::new();
            let mut cur = String::new();
            let mut i: usize = 0;
            let ghost mut lines_done: Seq<Seq<char>> = Seq::empty();
            proof {
                assert(Seq::<Seq<char>>::empty() + split_rest(out@, 0, cur@) =~= split_rest(
                    out@,
                    0,
                    cur@,
                ));
                assert(devices_of_lines(lines_done) =~= Seq::<AudioDeviceView>::empty());
                assert(aviews(devices@) =~= Seq::<AudioDeviceView>::empty());
            }
            while i < n
                invariant
                    0 <= i <= n,
                    n == out@.len(),
                    split_lines(out@) == lines_done + split_rest(out@, i as int, cur@),
                    aviews(devices@) == devices_of_lines(lines_done),
                decreases n - i,
            {
                let c = out.get_char(i);
                if c == '\n' {
                    let line = {
                        let mut taken = String::new();
                        core::mem::swap(&mut taken, &mut cur);
                        taken
                    };
                    let ghost cur0 = line@;
                    let trimmed = trim_str(line.as_str());
                    let ghost devs0 = aviews(devices@);
                    if trimmed.unicode_len() > 0 {
                        devices.push(output_device_of(trimmed));
                    }
                    proof {
                        lemma_devices_of_lines_push(lines_done, cur0);
                        if trim(cur0).len() != 0 {
                            assert(aviews(devices@) =~= devs0.push(output_device_view(trim(cur0))));
                        }
                        assert(lines_done + (seq![cur0] + split_rest(out@, i + 1, Seq::empty()))
                            =~= lines_done.push(cur0) + split_rest(out@, i + 1, Seq::empty()));
                        lines_done = lines_done.push(cur0);
                    }
                } else {
                    crate::text::push_char(&mut cur, c);
                }
                i += 1;
            }
            let ghost cur0 = cur@;
            let trimmed = trim_str(cur.as_str());
            let ghost devs0 = aviews(devices@);
            if trimmed.unicode_len() > 0 {
                devices.push(output_device_of(trimmed));
            }
            proof {
                lemma_devices_of_lines_push(lines_done, cur0);
                if trim(cur0).len() != 0 {
                    assert(aviews(devices@) =~= devs0.push(output_device_view(trim(cur0))));
                }
                assert(split_rest(out@, n as int, cur0) =~= seq![cur0]);
                assert(lines_done + seq![cur0] =~= lines_done.push(cur0));
                assert(split_lines(out@) == lines_done.push(cur0));
            }
            let ghost devs1 = aviews(devices@);
            devices.push(default_input_device());
            proof {
                assert(aviews(devices@) =~= devs1.push(default_input_view()));
                assert(devices_of_lines(split_lines(out@)).push(default_input_view())
                    =~= audio_devices_of_listing(out@));
            }
            devices
        },
    }
}

/// One display record assembled from the numbers the OS reports for the
/// display at position `index` of the enumeration: the synthetic name
/// `Display <index+1>`, primary exactly when its id is the main display's,
/// scale and rotation left at their defaults.
pub fn display_record(
    index: u32,
    id: u32,
    width: u32,
    height: u32,
    x: i32,
    y: i32,
    main_id: u32,
) -> (r: DisplayInfo)
    requires
        index < 0xffff_ffffu32,
    ensures
        r@.id == id,
        r@.name == "Display "@ + dec_digits((index + 1) as nat),
        r@.width == width,
        r@.height == height,
        r@.x == x,
        r@.y == y,
        r@.scale_milli == 1000,
        r@.is_primary == (id == main_id),
        r@.rotation == 0,
{
    let mut name = String::from_str("Display ");
    crate::text::render_u32_into(&mut name, index + 1);
    DisplayInfo {
        id,
        name,
        width,
        height,
        x,
        y,
        scale_milli: 1000,
        is_primary: id == main_id,
        rotation: 0,
    }
}

/// One display record assembled from a monitor rectangle, as the
/// rectangle-based enumeration reports it: width and height are the side
/// lengths, the origin is the top-left corner, and the low bit of `flags`
/// marks the primary monitor.
pub fn display_record_from_rect(
    index: u32,
    id: u32,
    left: i32,
    top: i32,
    right: i32,
    bottom: i32,
    flags: u32,
) -> (r: DisplayInfo)
    requires
        index < 0xffff_ffffu32,
        left <= right,
        top <= bottom,
        right - left <= u32::MAX,
        bottom - top <= u32::MAX,
    ensures
        r@.id == id,
        r@.name == "Display "@ + dec_digits((index + 1) as nat),
        r@.width == right - left,
        r@.height == bottom - top,
        r@.x == left,
        r@.y == top,
        r@.scale_milli == 1000,
        r@.is_primary == ((flags & 1) != 0),
        r@.rotation == 0,
{
    let width = ((right as i64) - (left as i64)) as u32;
    let height = ((bottom as i64) - (top as i64)) as u32;
    let mut name = String::from_str("Display ");
    crate::text::render_u32_into(&mut name, index + 1);
    DisplayInfo {
        id,
        name,
        width,
        height,
        x: left,
        y: top,
        scale_milli: 1000,
        is_primary: (flags & 1) != 0,
        rotation: 0,
    }
}

} // verus!
