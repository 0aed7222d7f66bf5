//! The on-disk form of the profile collection: a JSON array of profile
//! objects, written in one canonical layout (fixed key order, no extra
//! whitespace) and parsed exactly.
//!
//! `render_profiles` and `parse_profiles` are the two public ends; the
//! round-trip law `lemma_profiles_round_trip` proves that parsing what was
//! rendered yields the collection that was written.

use vstd::prelude::*;
use crate::model::{
    AudioSettings, AudioSettingsView, DisplayInfo, DisplayInfoView, Profile, ProfileView,
    opt_string_view,
};
use crate::store::views_of;
use crate::text::{
    dec_digits, is_digit, parse_bool, parse_i32, parse_lit, parse_opt_string, parse_string,
    parse_u32, render_bool, render_bool_into, render_i32, render_i32_into, render_opt_string,
    render_opt_string_into, render_string, render_string_into, render_u32_into, spec_parse_bool,
    spec_parse_i32, spec_parse_lit, spec_parse_opt_string, spec_parse_string, spec_parse_u32,
};

verus! {

/// A key (or any expected literal) followed by an unsigned number.
pub open spec fn spec_parse_key_u32(s: Seq<char>, i: int, key: Seq<char>) -> Option<(u32, int)> {
    match spec_parse_lit(s, i, key) {
        Some(j) => spec_parse_u32(s, j),
        None => None,
    }
}

/// A key followed by a signed number.
pub open spec fn spec_parse_key_i32(s: Seq<char>, i: int, key: Seq<char>) -> Option<(i32, int)> {
    match spec_parse_lit(s, i, key) {
        Some(j) => spec_parse_i32(s, j),
        None => None,
    }
}

/// A key followed by a boolean.
pub open spec fn spec_parse_key_bool(s: Seq<char>, i: int, key: Seq<char>) -> Option<(bool, int)> {
    match spec_parse_lit(s, i, key) {
        Some(j) => spec_parse_bool(s, j),
        None => None,
    }
}

/// A key followed by a string.
pub open spec fn spec_parse_key_string(s: Seq<char>, i: int, key: Seq<char>) -> Option<
    (Seq<char>, int),
> {
    match spec_parse_lit(s, i, key) {
        Some(j) => spec_parse_string(s, j),
        None => None,
    }
}

/// A key followed by a string or `null`.
pub open spec fn spec_parse_key_opt_string(s: Seq<char>, i: int, key: Seq<char>) -> Option<
    (Option<Seq<char>>, int),
> {
    match spec_parse_lit(s, i, key) {
        Some(j) => spec_parse_opt_string(s, j),
        None => None,
    }
}

/// A slice of `s` equal to a concatenation splits at the seam.
pub proof fn lemma_subrange_split(s: Seq<char>, i: int, j: int, a: Seq<char>, b: Seq<char>)
    requires
        0 <= i <= j <= s.len(),
        s.subrange(i, j) == a + b,
    ensures
        j == i + a.len() + b.len(),
        s.subrange(i, i + a.len()) == a,
        s.subrange(i + a.len(), j) == b,
{
    assert(s.subrange(i, j).len() == j - i);
    assert((a + b).len() == a.len() + b.len());
    assert(j - i == a.len() + b.len());
    assert forall|q: int| 0 <= q < a.len() implies s.subrange(i, i + a.len())[q] == a[q] by {
        assert(s.subrange(i, j)[q] == s[i + q]);
        assert(s.subrange(i, i + a.len())[q] == s[i + q]);
        assert((a + b)[q] == a[q]);
    }
    assert(s.subrange(i, i + a.len()) =~= a);
    assert forall|q: int| 0 <= q < b.len() implies s.subrange(i + a.len(), j)[q] == b[q] by {
        assert(s.subrange(i, j)[a.len() + q] == s[i + a.len() + q]);
        assert(s.subrange(i + a.len(), j)[q] == s[i + a.len() + q]);
        assert((a + b)[a.len() + q] == b[q]);
    }
    assert(s.subrange(i + a.len(), j) =~= b);
}

/// Reading back a key-prefixed unsigned number yields it.
pub proof fn lemma_parse_key_u32_round_trip(s: Seq<char>, i: int, j: int, key: Seq<char>, n: u32)
    requires
        0 <= i <= j <= s.len(),
        s.subrange(i, j) == key + dec_digits(n as nat),
        j < s.len(),
        !is_digit(s[j]),
    ensures
        spec_parse_key_u32(s, i, key) == Some((n, j)),
{
    lemma_subrange_split(s, i, j, key, dec_digits(n as nat));
    crate::text::lemma_parse_u32_round_trip(s, i + key.len(), n);
}

/// Reading back a key-prefixed signed number yields it.
pub proof fn lemma_parse_key_i32_round_trip(s: Seq<char>, i: int, j: int, key: Seq<char>, x: i32)
    requires
        0 <= i <= j <= s.len(),
        s.subrange(i, j) == key + render_i32(x as int),
        j < s.len(),
        !is_digit(s[j]),
    ensures
        spec_parse_key_i32(s, i, key) == Some((x, j)),
{
    lemma_subrange_split(s, i, j, key, render_i32(x as int));
    crate::text::lemma_parse_i32_round_trip(s, i + key.len(), x);
}

/// Reading back a key-prefixed boolean yields it.
pub proof fn lemma_parse_key_bool_round_trip(s: Seq<char>, i: int, j: int, key: Seq<char>, b: bool)
    requires
        0 <= i <= j <= s.len(),
        s.subrange(i, j) == key + render_bool(b),
    ensures
        spec_parse_key_bool(s, i, key) == Some((b, j)),
{
    lemma_subrange_split(s, i, j, key, render_bool(b));
    crate::text::lemma_parse_bool_round_trip(s, i + key.len(), j, b);
}

/// Reading back a key-prefixed string yields it.
pub proof fn lemma_parse_key_string_round_trip(
    s: Seq<char>,
    i: int,
    j: int,
    key: Seq<char>,
    t: Seq<char>,
)
    requires
        0 <= i <= j <= s.len(),
        s.subrange(i, j) == key + render_string(t),
    ensures
        spec_parse_key_string(s, i, key) == Some((t, j)),
{
    lemma_subrange_split(s, i, j, key, render_string(t));
    crate::text::lemma_parse_string_round_trip(s, i + key.len(), j, t);
}

/// Reading back a key-prefixed optional string yields it.
pub proof fn lemma_parse_key_opt_string_round_trip(
    s: Seq<char>,
    i: int,
    j: int,
    key: Seq<char>,
    o: Option<Seq<char>>,
)
    requires
        0 <= i <= j <= s.len(),
        s.subrange(i, j) == key + render_opt_string(o),
    ensures
        spec_parse_key_opt_string(s, i, key) == Some((o, j)),
{
    lemma_subrange_split(s, i, j, key, render_opt_string(o));
    crate::text::lemma_parse_opt_string_round_trip(s, i + key.len(), j, o);
}

/// The canonical JSON object for one display.
pub open spec fn render_display(d: DisplayInfoView) -> Seq<char> {
    ("{\"id\":"@ + dec_digits(d.id as nat)) + (",\"name\":"@ + render_string(d.name)) + (
    ",\"width\":"@ + dec_digits(d.width as nat)) + (",\"height\":"@ + dec_digits(
        d.height as nat,
    )) + (",\"x\":"@ + render_i32(d.x as int)) + (",\"y\":"@ + render_i32(d.y as int)) + (
    ",\"scale_milli\":"@ + dec_digits(d.scale_milli as nat)) + (",\"is_primary\":"@ + render_bool(
        d.is_primary,
    )) + (",\"rotation\":"@ + dec_digits(d.rotation as nat)) + "}"@
}

/// The exact parser for one display object.
pub open spec fn spec_parse_display(s: Seq<char>, i: int) -> Option<(DisplayInfoView, int)> {
    match spec_parse_key_u32(s, i, "{\"id\":"@) {
        None => None,
        Some((id, j1)) => match spec_parse_key_string(s, j1, ",\"name\":"@) {
            None => None,
            Some((name, j2)) => match spec_parse_key_u32(s, j2, ",\"width\":"@) {
                None => None,
                Some((width, j3)) => match spec_parse_key_u32(s, j3, ",\"height\":"@) {
                    None => None,
                    Some((height, j4)) => match spec_parse_key_i32(s, j4, ",\"x\":"@) {
                        None => None,
                        Some((x, j5)) => match spec_parse_key_i32(s, j5, ",\"y\":"@) {
                            None => None,
                            Some((y, j6)) => match spec_parse_key_u32(
                                s,
                                j6,
                                ",\"scale_milli\":"@,
                            ) {
                                None => None,
                                Some((scale_milli, j7)) => match spec_parse_key_bool(
                                    s,
                                    j7,
                                    ",\"is_primary\":"@,
                                ) {
                                    None => None,
                                    Some((is_primary, j8)) => match spec_parse_key_u32(
                                        s,
                                        j8,
                                        ",\"rotation\":"@,
                                    ) {
                                        None => None,
                                        Some((rotation, j9)) => match spec_parse_lit(
                                            s,
                                            j9,
                                            "}"@,
                                        ) {
                                            None => None,
                                            Some(j10) => Some(
                                                (
                                                    DisplayInfoView {
                                                        id,
                                                        name,
                                                        width,
                                                        height,
                                                        x,
                                                        y,
                                                        scale_milli,
                                                        is_primary,
                                                        rotation,
                                                    },
                                                    j10,
                                                ),
                                            ),
                                        },
                                    },
                                },
                            },
                        },
                    },
                },
            },
        },
    }
}

/// Appends the canonical object for one display to `out`.
#[verifier::rlimit(50)]
pub fn render_display_into(out: &mut String, d: &DisplayInfo)
    ensures
        final(out)@ == old(out)@ + render_display(d@),
{
    out.append("{\"id\":");
    render_u32_into(out, d.id);
    out.append(",\"name\":");
    render_string_into(out, d.name.as_str());
    out.append(",\"width\":");
    render_u32_into(out, d.width);
    out.append(",\"height\":");
    render_u32_into(out, d.height);
    out.append(",\"x\":");
    render_i32_into(out, d.x);
    out.append(",\"y\":");
    render_i32_into(out, d.y);
    out.append(",\"scale_milli\":");
    render_u32_into(out, d.scale_milli);
    out.append(",\"is_primary\":");
    render_bool_into(out, d.is_primary);
    out.append(",\"rotation\":");
    render_u32_into(out, d.rotation);
    out.append("}");
    proof {
        assert(out@ =~= old(out)@ + render_display(d@));
    }
}

/// Parses one display object as `spec_parse_display` describes.
pub fn parse_display(s: &str, i: usize) -> (r: Option<(DisplayInfo, usize)>)
    requires
        i <= s@.len(),
    ensures
        match r {
            Some((d, j)) => i < j <= s@.len() && spec_parse_display(s@, i as int) == Some((
                d@,
                j as int,
            )),
            None => spec_parse_display(s@, i as int) is None,
        },
{
    let j1 = match parse_lit(s, i, "{\"id\":") {
        Some(j) => j,
        None => {
            return None;
        },
    };
    let (id, j1b) = match parse_u32(s, j1) {
        Some(v) => v,
        None => {
            return None;
        },
    };
    let j2 = match parse_lit(s, j1b, ",\"name\":") {
        Some(j) => j,
        None => {
            return None;
        },
    };
    let (name, j2b) = match parse_string(s, j2) {
        Some(v) => v,
        None => {
            return None;
        },
    };
    let j3 = match parse_lit(s, j2b, ",\"width\":") {
        Some(j) => j,
        None => {
            return None;
        },
    };
    let (width, j3b) = match parse_u32(s, j3) {
        Some(v) => v,
        None => {
            return None;
        },
    };
    let j4 = match parse_lit(s, j3b, ",\"height\":") {
        Some(j) => j,
        None => {
            return None;
        },
    };
    let (height, j4b) = match parse_u32(s, j4) {
        Some(v) => v,
        None => {
            return None;
        },
    };
    let j5 = match parse_lit(s, j4b, ",\"x\":") {
        Some(j) => j,
        None => {
            return None;
        },
    };
    let (x, j5b) = match parse_i32(s, j5) {
        Some(v) => v,
        None => {
            return None;
        },
    };
    let j6 = match parse_lit(s, j5b, ",\"y\":") {
        Some(j) => j,
        None => {
            return None;
        },
    };
    let (y, j6b) = match parse_i32(s, j6) {
        Some(v) => v,
        None => {
            return None;
        },
    };
    let j7 = match parse_lit(s, j6b, ",\"scale_milli\":") {
        Some(j) => j,
        None => {
            return None;
        },
    };
    let (scale_milli, j7b) = match parse_u32(s, j7) {
        Some(v) => v,
        None => {
            return None;
        },
    };
    let j8 = match parse_lit(s, j7b, ",\"is_primary\":") {
        Some(j) => j,
        None => {
            return None;
        },
    };
    let (is_primary, j8b) = match parse_bool(s, j8) {
        Some(v) => v,
        None => {
            return None;
        },
    };
    let j9 = match parse_lit(s, j8b, ",\"rotation\":") {
        Some(j) => j,
        None => {
            return None;
        },
    };
    let (rotation, j9b) = match parse_u32(s, j9) {
        Some(v) => v,
        None => {
            return None;
        },
    };
    let j10 = match parse_lit(s, j9b, "}") {
        Some(j) => j,
        None => {
            return None;
        },
    };
    Some((DisplayInfo { id, name, width, height, x, y, scale_milli, is_primary, rotation }, j10))
}

/// Reading back a rendered display object yields it.
pub proof fn lemma_parse_display_round_trip(s: Seq<char>, i: int, j: int, d: DisplayInfoView)
    requires
        0 <= i <= j <= s.len(),
        s.subrange(i, j) == render_display(d),
    ensures
        spec_parse_display(s, i) == Some((d, j)),
{
    reveal_strlit("{\"id\":");
    reveal_strlit(",\"name\":");
    reveal_strlit(",\"width\":");
    reveal_strlit(",\"height\":");
    reveal_strlit(",\"x\":");
    reveal_strlit(",\"y\":");
    reveal_strlit(",\"scale_milli\":");
    reveal_strlit(",\"is_primary\":");
    reveal_strlit(",\"rotation\":");
    reveal_strlit("}");
    let c1 = "{\"id\":"@ + dec_digits(d.id as nat);
    let c2 = ",\"name\":"@ + render_string(d.name);
    let c3 = ",\"width\":"@ + dec_digits(d.width as nat);
    let c4 = ",\"height\":"@ + dec_digits(d.height as nat);
    let c5 = ",\"x\":"@ + render_i32(d.x as int);
    let c6 = ",\"y\":"@ + render_i32(d.y as int);
    let c7 = ",\"scale_milli\":"@ + dec_digits(d.scale_milli as nat);
    let c8 = ",\"is_primary\":"@ + render_bool(d.is_primary);
    let c9 = ",\"rotation\":"@ + dec_digits(d.rotation as nat);
    let c10 = "}"@;
    lemma_subrange_split(s, i, j, c1 + c2 + c3 + c4 + c5 + c6 + c7 + c8 + c9, c10);
    let i9 = i + (c1 + c2 + c3 + c4 + c5 + c6 + c7 + c8 + c9).len();
    lemma_subrange_split(s, i, i9, c1 + c2 + c3 + c4 + c5 + c6 + c7 + c8, c9);
    let i8 = i + (c1 + c2 + c3 + c4 + c5 + c6 + c7 + c8).len();
    lemma_subrange_split(s, i, i8, c1 + c2 + c3 + c4 + c5 + c6 + c7, c8);
    let i7 = i + (c1 + c2 + c3 + c4 + c5 + c6 + c7).len();
    lemma_subrange_split(s, i, i7, c1 + c2 + c3 + c4 + c5 + c6, c7);
    let i6 = i + (c1 + c2 + c3 + c4 + c5 + c6).len();
    lemma_subrange_split(s, i, i6, c1 + c2 + c3 + c4 + c5, c6);
    let i5 = i + (c1 + c2 + c3 + c4 + c5).len();
    lemma_subrange_split(s, i, i5, c1 + c2 + c3 + c4, c5);
    let i4 = i + (c1 + c2 + c3 + c4).len();
    lemma_subrange_split(s, i, i4, c1 + c2 + c3, c4);
    let i3 = i + (c1 + c2 + c3).len();
    lemma_subrange_split(s, i, i3, c1 + c2, c3);
    let i2 = i + (c1 + c2).len();
    lemma_subrange_split(s, i, i2, c1, c2);
    let i1 = i + c1.len();
    // boundary characters after each numeric field
    assert(s.subrange(i1, i2)[0] == s[i1]);
    assert(c2[0] == ',');
    assert(s[i1] == ',' && !is_digit(s[i1]));
    lemma_parse_key_u32_round_trip(s, i, i1, "{\"id\":"@, d.id);
    lemma_parse_key_string_round_trip(s, i1, i2, ",\"name\":"@, d.name);
    assert(s.subrange(i3, i4)[0] == s[i3]);
    assert(c4[0] == ',');
    assert(s[i3] == ',' && !is_digit(s[i3]));
    lemma_parse_key_u32_round_trip(s, i2, i3, ",\"width\":"@, d.width);
    assert(s.subrange(i4, i5)[0] == s[i4]);
    assert(c5[0] == ',');
    assert(s[i4] == ',' && !is_digit(s[i4]));
    lemma_parse_key_u32_round_trip(s, i3, i4, ",\"height\":"@, d.height);
    assert(s.subrange(i5, i6)[0] == s[i5]);
    assert(c6[0] == ',');
    assert(s[i5] == ',' && !is_digit(s[i5]));
    lemma_parse_key_i32_round_trip(s, i4, i5, ",\"x\":"@, d.x);
    assert(s.subrange(i6, i7)[0] == s[i6]);
    assert(c7[0] == ',');
    assert(s[i6] == ',' && !is_digit(s[i6]));
    lemma_parse_key_i32_round_trip(s, i5, i6, ",\"y\":"@, d.y);
    assert(s.subrange(i7, i8)[0] == s[i7]);
    assert(c8[0] == ',');
    assert(s[i7] == ',' && !is_digit(s[i7]));
    lemma_parse_key_u32_round_trip(s, i6, i7, ",\"scale_milli\":"@, d.scale_milli);
    lemma_parse_key_bool_round_trip(s, i7, i8, ",\"is_primary\":"@, d.is_primary);
    assert(s.subrange(i9, j)[0] == s[i9]);
    assert(c10[0] == '}');
    assert(s[i9] == '}' && !is_digit(s[i9]));
    lemma_parse_key_u32_round_trip(s, i8, i9, ",\"rotation\":"@, d.rotation);
    assert(spec_parse_lit(s, i9, "}"@) == Some(j));
}

/// The canonical JSON object for audio settings.
pub open spec fn render_audio(a: AudioSettingsView) -> Seq<char> {
    ("{\"output_device\":"@ + render_opt_string(a.output_device)) + (",\"input_device\":"@
        + render_opt_string(a.input_device)) + (",\"output_volume\":"@ + dec_digits(
        a.output_volume as nat,
    )) + (",\"input_volume\":"@ + dec_digits(a.input_volume as nat)) + "}"@
}

/// The exact parser for one audio settings object.
pub open spec fn spec_parse_audio(s: Seq<char>, i: int) -> Option<(AudioSettingsView, int)> {
    match spec_parse_key_opt_string(s, i, "{\"output_device\":"@) {
        None => None,
        Some((output_device, j1)) => match spec_parse_key_opt_string(
            s,
            j1,
            ",\"input_device\":"@,
        ) {
            None => None,
            Some((input_device, j2)) => match spec_parse_key_u32(s, j2, ",\"output_volume\":"@) {
                None => None,
                Some((output_volume, j3)) => match spec_parse_key_u32(
                    s,
                    j3,
                    ",\"input_volume\":"@,
                ) {
                    None => None,
                    Some((input_volume, j4)) => match spec_parse_lit(s, j4, "}"@) {
                        None => None,
                        Some(j5) => Some(
                            (
                                AudioSettingsView {
                                    output_device,
                                    input_device,
                                    output_volume,
                                    input_volume,
                                },
                                j5,
                            ),
                        ),
                    },
                },
            },
        },
    }
}

/// Appends the canonical audio settings object to `out`.
#[verifier::rlimit(50)]
pub fn render_audio_into(out: &mut String, a: &AudioSettings)
    ensures
        final(out)@ == old(out)@ + render_audio(a@),
{
    out.append("{\"output_device\":");
    render_opt_string_into(out, &a.output_device);
    out.append(",\"input_device\":");
    render_opt_string_into(out, &a.input_device);
    out.append(",\"output_volume\":");
    render_u32_into(out, a.output_volume);
    out.append(",\"input_volume\":");
    render_u32_into(out, a.input_volume);
    out.append("}");
    proof {
        assert(out@ =~= old(out)@ + render_audio(a@));
    }
}

/// Parses one audio settings object as `spec_parse_audio` describes.
pub fn parse_audio(s: &str, i: usize) -> (r: Option<(AudioSettings, usize)>)
    requires
        i <= s@.len(),
    ensures
        match r {
            Some((a, j)) => i < j <= s@.len() && spec_parse_audio(s@, i as int) == Some((
                a@,
                j as int,
            )),
            None => spec_parse_audio(s@, i as int) is None,
        },
{
    let j1 = match parse_lit(s, i, "{\"output_device\":") {
        Some(j) => j,
        None => {
            return None;
        },
    };
    let (output_device, j1b) = match parse_opt_string(s, j1) {
        Some(v) => v,
        None => {
            return None;
        },
    };
    let j2 = match parse_lit(s, j1b, ",\"input_device\":") {
        Some(j) => j,
        None => {
            return None;
        },
    };
    let (input_device, j2b) = match parse_opt_string(s, j2) {
        Some(v) => v,
        None => {
            return None;
        },
    };
    let j3 = match parse_lit(s, j2b, ",\"output_volume\":") {
        Some(j) => j,
        None => {
            return None;
        },
    };
    let (output_volume, j3b) = match parse_u32(s, j3) {
        Some(v) => v,
        None => {
            return None;
        },
    };
    let j4 = match parse_lit(s, j3b, ",\"input_volume\":") {
        Some(j) => j,
        None => {
            return None;
        },
    };
    let (input_volume, j4b) = match parse_u32(s, j4) {
        Some(v) => v,
        None => {
            return None;
        },
    };
    let j5 = match parse_lit(s, j4b, "}") {
        Some(j) => j,
        None => {
            return None;
        },
    };
    Some((AudioSettings { output_device, input_device, output_volume, input_volume }, j5))
}

/// Reading back a rendered audio settings object yields it.
pub proof fn lemma_parse_audio_round_trip(s: Seq<char>, i: int, j: int, a: AudioSettingsView)
    requires
        0 <= i <= j <= s.len(),
        s.subrange(i, j) == render_audio(a),
    ensures
        spec_parse_audio(s, i) == Some((a, j)),
{
    reveal_strlit("{\"output_device\":");
    reveal_strlit(",\"input_device\":");
    reveal_strlit(",\"output_volume\":");
    reveal_strlit(",\"input_volume\":");
    reveal_strlit("}");
    let c1 = "{\"output_device\":"@ + render_opt_string(a.output_device);
    let c2 = ",\"input_device\":"@ + render_opt_string(a.input_device);
    let c3 = ",\"output_volume\":"@ + dec_digits(a.output_volume as nat);
    let c4 = ",\"input_volume\":"@ + dec_digits(a.input_volume as nat);
    let c5 = "}"@;
    lemma_subrange_split(s, i, j, c1 + c2 + c3 + c4, c5);
    let i4 = i + (c1 + c2 + c3 + c4).len();
    lemma_subrange_split(s, i, i4, c1 + c2 + c3, c4);
    let i3 = i + (c1 + c2 + c3).len();
    lemma_subrange_split(s, i, i3, c1 + c2, c3);
    let i2 = i + (c1 + c2).len();
    lemma_subrange_split(s, i, i2, c1, c2);
    let i1 = i + c1.len();
    lemma_parse_key_opt_string_round_trip(s, i, i1, "{\"output_device\":"@, a.output_device);
    lemma_parse_key_opt_string_round_trip(s, i1, i2, ",\"input_device\":"@, a.input_device);
    assert(s.subrange(i3, i4)[0] == s[i3]);
    assert(c4[0] == ',');
    assert(s[i3] == ',' && !is_digit(s[i3]));
    lemma_parse_key_u32_round_trip(s, i2, i3, ",\"output_volume\":"@, a.output_volume);
    assert(s.subrange(i4, j)[0] == s[i4]);
    assert(c5[0] == '}');
    assert(s[i4] == '}' && !is_digit(s[i4]));
    lemma_parse_key_u32_round_trip(s, i3, i4, ",\"input_volume\":"@, a.input_volume);
    assert(spec_parse_lit(s, i4, "}"@) == Some(j));
}

/// The views of a display list.
pub open spec fn dviews(ds: Seq<DisplayInfo>) -> Seq<DisplayInfoView> {
    ds.map_values(|d: DisplayInfo| d@)
}

/// The display objects of an array, joined by commas.
pub open spec fn render_display_items(ds: Seq<DisplayInfoView>) -> Seq<char>
    decreases ds.len(),
{
    if ds.len() == 0 {
        Seq::empty()
    } else if ds.len() == 1 {
        render_display(ds[0])
    } else {
        render_display_items(ds.drop_last()) + seq![','] + render_display(ds.last())
    }
}

/// The canonical JSON array of display objects.
pub open spec fn render_displays(ds: Seq<DisplayInfoView>) -> Seq<char> {
    seq!['['] + render_display_items(ds) + seq![']']
}

/// The members of a display array after the opening bracket: one display,
/// then either a comma and more members or the closing bracket.
pub open spec fn spec_parse_display_items(s: Seq<char>, i: int, fuel: nat) -> Option<
    (Seq<DisplayInfoView>, int),
>
    decreases fuel,
{
    if fuel == 0 {
        None
    } else {
        match spec_parse_display(s, i) {
            None => None,
            Some((d, j)) => {
                if j < s.len() && s[j] == ',' {
                    match spec_parse_display_items(s, j + 1, (fuel - 1) as nat) {
                        Some((ds, k)) => Some((seq![d] + ds, k)),
                        None => None,
                    }
                } else if j < s.len() && s[j] == ']' {
                    Some((seq![d], j + 1))
                } else {
                    None
                }
            },
        }
    }
}

/// The exact parser for a display array.
pub open spec fn spec_parse_displays(s: Seq<char>, i: int) -> Option<(Seq<DisplayInfoView>, int)> {
    if 0 <= i < s.len() && s[i] == '[' {
        if i + 1 < s.len() && s[i + 1] == ']' {
            Some((Seq::empty(), i + 2))
        } else {
            spec_parse_display_items(s, i + 1, s.len())
        }
    } else {
        None
    }
}

/// Appends the canonical display array to `out`.
pub fn render_displays_into(out: &mut String, ds: &Vec<DisplayInfo>)
    ensures
        final(out)@ == old(out)@ + render_displays(dviews(ds@)),
{
    crate::text::push_char(out, '[');
    let mut k: usize = 0;
    proof {
        assert(dviews(ds@).subrange(0, 0) =~= Seq::<DisplayInfoView>::empty());
        assert(out@ =~= old(out)@ + seq!['['] + render_display_items(dviews(ds@).subrange(0, 0)));
    }
    while k < ds.len()
        invariant
            0 <= k <= ds@.len(),
            out@ == old(out)@ + seq!['['] + render_display_items(dviews(ds@).subrange(0, k as int)),
        decreases ds@.len() - k,
    {
        let ghost prefix = dviews(ds@).subrange(0, k as int);
        let ghost prefix1 = dviews(ds@).subrange(0, k + 1 as int);
        if k > 0 {
            crate::text::push_char(out, ',');
        }
        render_display_into(out, &ds[k]);
        proof {
            assert(prefix1.drop_last() =~= prefix);
            assert(prefix1.last() == dviews(ds@)[k as int]);
            assert(dviews(ds@)[k as int] == ds@[k as int]@);
            if k == 0 {
                assert(render_display_items(prefix1) == render_display(ds@[0]@));
                assert(out@ =~= old(out)@ + seq!['['] + render_display_items(prefix1));
            } else {
                assert(render_display_items(prefix1) == render_display_items(prefix) + seq![',']
                    + render_display(ds@[k as int]@));
                assert(out@ =~= old(out)@ + seq!['['] + render_display_items(prefix1));
            }
        }
        k += 1;
    }
    crate::text::push_char(out, ']');
    proof {
        assert(dviews(ds@).subrange(0, ds@.len() as int) =~= dviews(ds@));
        assert(out@ =~= old(out)@ + render_displays(dviews(ds@)));
    }
}

/// Parses the members of a display array as `spec_parse_display_items`
/// describes.
fn parse_display_items(s: &str, i: usize, fuel: usize) -> (r: Option<(Vec<DisplayInfo>, usize)>)
    requires
        i <= s@.len(),
    ensures
        match r {
            Some((v, k)) => i < k <= s@.len() && spec_parse_display_items(
                s@,
                i as int,
                fuel as nat,
            ) == Some((dviews(v@), k as int)),
            None => spec_parse_display_items(s@, i as int, fuel as nat) is None,
        },
    decreases fuel,
{
    if fuel == 0 {
        return None;
    }
    let n = s.unicode_len();
    match parse_display(s, i) {
        None => None,
        Some((d, j)) => {
            if j < n && s.get_char(j) == ',' {
                match parse_display_items(s, j + 1, fuel - 1) {
                    Some((mut v, k)) => {
                        let ghost pre_v = v@;
                        v.insert(0, d);
                        proof {
                            assert(dviews(v@) =~= seq![d@] + dviews(pre_v));
                        }
                        Some((v, k))
                    },
                    None => None,
                }
            } else if j < n && s.get_char(j) == ']' {
                let mut v: Vec<DisplayInfo> = Vec::new();
                v.push(d);
                proof {
                    assert(dviews(v@) =~= seq![d@]);
                }
                Some((v, j + 1))
            } else {
                None
            }
        },
    }
}

/// Parses a display array as `spec_parse_displays` describes.
pub fn parse_displays(s: &str, i: usize) -> (r: Option<(Vec<DisplayInfo>, usize)>)
    requires
        i <= s@.len(),
    ensures
        match r {
            Some((v, k)) => i < k <= s@.len() && spec_parse_displays(s@, i as int) == Some((
                dviews(v@),
                k as int,
            )),
            None => spec_parse_displays(s@, i as int) is None,
        },
{
    let n = s.unicode_len();
    if i == n || s.get_char(i) != '[' {
        return None;
    }
    if i + 1 < n && s.get_char(i + 1) == ']' {
        let v: Vec<DisplayInfo> = Vec::new();
        proof {
            assert(dviews(v@) =~= Seq::<DisplayInfoView>::empty());
        }
        return Some((v, i + 2));
    }
    parse_display_items(s, i + 1, n)
}

/// The comma-joined members decompose from the front as well.
pub proof fn lemma_display_items_first(ds: Seq<DisplayInfoView>)
    requires
        ds.len() >= 1,
    ensures
        render_display_items(ds) == render_display(ds[0]) + (if ds.len() == 1 {
            Seq::<char>::empty()
        } else {
            seq![','] + render_display_items(ds.subrange(1, ds.len() as int))
        }),
    decreases ds.len(),
{
    if ds.len() == 1 {
        assert(render_display(ds[0]) + Seq::<char>::empty() =~= render_display(ds[0]));
    } else {
        let dl = ds.drop_last();
        let t2 = ds.subrange(1, ds.len() as int);
        lemma_display_items_first(dl);
        assert(dl[0] == ds[0]);
        assert(t2.drop_last() =~= dl.subrange(1, dl.len() as int));
        assert(t2.last() == ds.last());
        if ds.len() == 2 {
            assert(render_display_items(dl) == render_display(ds[0]) + Seq::<char>::empty());
            assert(render_display_items(dl) =~= render_display(ds[0]));
            assert(t2 =~= seq![ds[1]]);
            assert(t2.len() == 1);
            assert(render_display_items(t2) == render_display(ds[1]));
            assert((render_display(ds[0]) + seq![','] + render_display(ds.last())) =~= render_display(
                ds[0],
            ) + (seq![','] + render_display_items(t2)));
        } else {
            assert(render_display_items(t2) == render_display_items(t2.drop_last()) + seq![',']
                + render_display(t2.last()));
            assert(render_display_items(ds) == (render_display(ds[0]) + (seq![',']
                + render_display_items(dl.subrange(1, dl.len() as int)))) + seq![',']
                + render_display(ds.last()));
            assert((render_display(ds[0]) + (seq![','] + render_display_items(
                dl.subrange(1, dl.len() as int),
            ))) + seq![','] + render_display(ds.last()) =~= render_display(ds[0]) + (seq![','] + (
            render_display_items(t2.drop_last()) + seq![','] + render_display(t2.last()))));
        }
    }
}

/// A rendered display object is never empty.
pub proof fn lemma_render_display_len(d: DisplayInfoView)
    ensures
        render_display(d).len() >= 1,
{
    crate::text::lemma_dec_digits_are_digits(d.id as nat);
}

/// The joined members are at least as long as their count.
pub proof fn lemma_display_items_len(ds: Seq<DisplayInfoView>)
    requires
        ds.len() >= 1,
    ensures
        render_display_items(ds).len() >= ds.len(),
    decreases ds.len(),
{
    if ds.len() == 1 {
        lemma_render_display_len(ds[0]);
    } else {
        lemma_display_items_len(ds.drop_last());
        lemma_render_display_len(ds.last());
    }
}

/// Reading back rendered members (with the closing bracket behind them)
/// yields them, for any sufficient fuel.
pub proof fn lemma_parse_display_items_round_trip(
    s: Seq<char>,
    i: int,
    j: int,
    ds: Seq<DisplayInfoView>,
    fuel: nat,
)
    requires
        ds.len() >= 1,
        fuel >= ds.len(),
        0 <= i <= j <= s.len(),
        s.subrange(i, j) == render_display_items(ds) + seq![']'],
    ensures
        spec_parse_display_items(s, i, fuel) == Some((ds, j)),
    decreases ds.len(),
{
    lemma_display_items_first(ds);
    let d0 = ds[0];
    let a = render_display(d0);
    if ds.len() == 1 {
        assert(render_display_items(ds) + seq![']'] =~= a + seq![']']);
        lemma_subrange_split(s, i, j, a, seq![']']);
        let i1 = i + a.len();
        lemma_parse_display_round_trip(s, i, i1, d0);
        assert(s.subrange(i1, j)[0] == s[i1]);
        assert(s[i1] == ']');
        assert(seq![d0] =~= ds);
    } else {
        let rest = ds.subrange(1, ds.len() as int);
        let tail = render_display_items(rest) + seq![']'];
        assert(render_display_items(ds) + seq![']'] =~= a + (seq![','] + tail));
        lemma_subrange_split(s, i, j, a, seq![','] + tail);
        let i1 = i + a.len();
        lemma_parse_display_round_trip(s, i, i1, d0);
        lemma_subrange_split(s, i1, j, seq![','], tail);
        assert(s.subrange(i1, i1 + 1)[0] == s[i1]);
        assert(s[i1] == ',');
        lemma_parse_display_items_round_trip(s, i1 + 1, j, rest, (fuel - 1) as nat);
        assert(seq![d0] + rest =~= ds);
    }
}

/// Reading back a rendered display array yields it.
pub proof fn lemma_parse_displays_round_trip(s: Seq<char>, i: int, j: int, ds: Seq<
    DisplayInfoView,
>)
    requires
        0 <= i <= j <= s.len(),
        s.subrange(i, j) == render_displays(ds),
    ensures
        spec_parse_displays(s, i) == Some((ds, j)),
{
    reveal_strlit("{\"id\":");
    let items = render_display_items(ds);
    lemma_subrange_split(s, i, j, seq!['['] + items, seq![']']);
    let iend = i + 1 + items.len();
    lemma_subrange_split(s, i, iend, seq!['['], items);
    assert(s.subrange(i, i + 1)[0] == s[i]);
    assert(s[i] == '[');
    assert(s.subrange(iend, j)[0] == s[iend]);
    assert(s[iend] == ']');
    if ds.len() == 0 {
        assert(items.len() == 0);
        assert(j == i + 2);
        assert(s[i + 1] == ']');
        assert(ds =~= Seq::<DisplayInfoView>::empty());
    } else {
        lemma_display_items_first(ds);
        assert(render_display(ds[0])[0] == '{');
        assert(items[0] == '{');
        assert(s.subrange(i + 1, iend)[0] == s[i + 1]);
        assert(s[i + 1] == '{');
        assert forall|q: int| 0 <= q < items.len() + 1 implies s.subrange(i + 1, j)[q] == (items
            + seq![']'])[q] by {
            if q < items.len() {
                assert(s.subrange(i + 1, iend)[q] == s[i + 1 + q]);
            } else {
                assert(s.subrange(iend, j)[0] == s[iend]);
            }
            assert(s.subrange(i + 1, j)[q] == s[i + 1 + q]);
        }
        assert(s.subrange(i + 1, j) =~= items + seq![']']);
        lemma_display_items_len(ds);
        assert(items.len() <= s.len());
        lemma_parse_display_items_round_trip(s, i + 1, j, ds, s.len());
    }
}

/// The canonical JSON object for one profile.
#[verifier::opaque]
pub open spec fn render_profile(p: ProfileView) -> Seq<char> {
    ("{\"id\":"@ + render_string(p.id)) + (",\"name\":"@ + render_string(p.name)) + (
    ",\"displays\":"@ + render_displays(p.displays)) + (",\"audio_settings\":"@ + render_audio(
        p.audio_settings,
    )) + (",\"created_at\":"@ + render_string(p.created_at)) + "}"@
}

/// The exact parser for one profile object.
#[verifier::opaque]
pub open spec fn spec_parse_profile(s: Seq<char>, i: int) -> Option<(ProfileView, int)> {
    match spec_parse_key_string(s, i, "{\"id\":"@) {
        None => None,
        Some((id, j1)) => match spec_parse_key_string(s, j1, ",\"name\":"@) {
            None => None,
            Some((name, j2)) => match spec_parse_lit(s, j2, ",\"displays\":"@) {
                None => None,
                Some(j3) => match spec_parse_displays(s, j3) {
                    None => None,
                    Some((displays, j4)) => match spec_parse_lit(s, j4, ",\"audio_settings\":"@) {
                        None => None,
                        Some(j5) => match spec_parse_audio(s, j5) {
                            None => None,
                            Some((audio_settings, j6)) => match spec_parse_key_string(
                                s,
                                j6,
                                ",\"created_at\":"@,
                            ) {
                                None => None,
                                Some((created_at, j7)) => match spec_parse_lit(s, j7, "}"@) {
                                    None => None,
                                    Some(j8) => Some(
                                        (
                                            ProfileView {
                                                id,
                                                name,
                                                displays,
                                                audio_settings,
                                                created_at,
                                            },
                                            j8,
                                        ),
                                    ),
                                },
                            },
                        },
                    },
                },
            },
        },
    }
}

/// Appends the canonical object for one profile to `out`.
#[verifier::rlimit(50)]
pub fn render_profile_into(out: &mut String, p: &Profile)
    ensures
        final(out)@ == old(out)@ + render_profile(p@),
{
    out.append("{\"id\":");
    render_string_into(out, p.id.as_str());
    out.append(",\"name\":");
    render_string_into(out, p.name.as_str());
    out.append(",\"displays\":");
    render_displays_into(out, &p.displays);
    out.append(",\"audio_settings\":");
    render_audio_into(out, &p.audio_settings);
    out.append(",\"created_at\":");
    render_string_into(out, p.created_at.as_str());
    out.append("}");
    proof {
        reveal(render_profile);
        assert(out@ =~= old(out)@ + render_profile(p@));
    }
}

/// Parses one profile object as `spec_parse_profile` describes.
pub fn parse_profile(s: &str, i: usize) -> (r: Option<(Profile, usize)>)
    requires
        i <= s@.len(),
    ensures
        match r {
            Some((p, j)) => i < j <= s@.len() && spec_parse_profile(s@, i as int) == Some((
                p@,
                j as int,
            )),
            None => spec_parse_profile(s@, i as int) is None,
        },
{
    proof {
        reveal(spec_parse_profile);
    }
    let j1 = match parse_lit(s, i, "{\"id\":") {
        Some(j) => j,
        None => {
            return None;
        },
    };
    let (id, j1b) = match parse_string(s, j1) {
        Some(v) => v,
        None => {
            return None;
        },
    };
    let j2 = match parse_lit(s, j1b, ",\"name\":") {
        Some(j) => j,
        None => {
            return None;
        },
    };
    let (name, j2b) = match parse_string(s, j2) {
        Some(v) => v,
        None => {
            return None;
        },
    };
    let j3 = match parse_lit(s, j2b, ",\"displays\":") {
        Some(j) => j,
        None => {
            return None;
        },
    };
    let (displays, j3b) = match parse_displays(s, j3) {
        Some(v) => v,
        None => {
            return None;
        },
    };
    let j4 = match parse_lit(s, j3b, ",\"audio_settings\":") {
        Some(j) => j,
        None => {
            return None;
        },
    };
    let (audio_settings, j4b) = match parse_audio(s, j4) {
        Some(v) => v,
        None => {
            return None;
        },
    };
    let j5 = match parse_lit(s, j4b, ",\"created_at\":") {
        Some(j) => j,
        None => {
            return None;
        },
    };
    let (created_at, j5b) = match parse_string(s, j5) {
        Some(v) => v,
        None => {
            return None;
        },
    };
    let j6 = match parse_lit(s, j5b, "}") {
        Some(j) => j,
        None => {
            return None;
        },
    };
    Some((Profile { id, name, displays, audio_settings, created_at }, j6))
}

/// Reading back a rendered profile object yields it.
pub proof fn lemma_parse_profile_round_trip(s: Seq<char>, i: int, j: int, p: ProfileView)
    requires
        0 <= i <= j <= s.len(),
        s.subrange(i, j) == render_profile(p),
    ensures
        spec_parse_profile(s, i) == Some((p, j)),
{
    reveal(render_profile);
    reveal(spec_parse_profile);
    reveal_strlit("{\"id\":");
    reveal_strlit(",\"name\":");
    reveal_strlit(",\"displays\":");
    reveal_strlit(",\"audio_settings\":");
    reveal_strlit(",\"created_at\":");
    reveal_strlit("}");
    let c1 = "{\"id\":"@ + render_string(p.id);
    let c2 = ",\"name\":"@ + render_string(p.name);
    let c3 = ",\"displays\":"@ + render_displays(p.displays);
    let c4 = ",\"audio_settings\":"@ + render_audio(p.audio_settings);
    let c5 = ",\"created_at\":"@ + render_string(p.created_at);
    let c6 = "}"@;
    lemma_subrange_split(s, i, j, c1 + c2 + c3 + c4 + c5, c6);
    let i5 = i + (c1 + c2 + c3 + c4 + c5).len();
    lemma_subrange_split(s, i, i5, c1 + c2 + c3 + c4, c5);
    let i4 = i + (c1 + c2 + c3 + c4).len();
    lemma_subrange_split(s, i, i4, c1 + c2 + c3, c4);
    let i3 = i + (c1 + c2 + c3).len();
    lemma_subrange_split(s, i, i3, c1 + c2, c3);
    let i2 = i + (c1 + c2).len();
    lemma_subrange_split(s, i, i2, c1, c2);
    let i1 = i + c1.len();
    lemma_parse_key_string_round_trip(s, i, i1, "{\"id\":"@, p.id);
    lemma_parse_key_string_round_trip(s, i1, i2, ",\"name\":"@, p.name);
    lemma_subrange_split(s, i2, i3, ",\"displays\":"@, render_displays(p.displays));
    lemma_parse_displays_round_trip(s, i2 + ",\"displays\":"@.len(), i3, p.displays);
    lemma_subrange_split(s, i3, i4, ",\"audio_settings\":"@, render_audio(p.audio_settings));
    lemma_parse_audio_round_trip(s, i3 + ",\"audio_settings\":"@.len(), i4, p.audio_settings);
    lemma_parse_key_string_round_trip(s, i4, i5, ",\"created_at\":"@, p.created_at);
    assert(spec_parse_lit(s, i5, "}"@) == Some(j));
}

/// The profile objects of the top-level array, joined by commas.
pub open spec fn render_profile_items(ps: Seq<ProfileView>) -> Seq<char>
    decreases ps.len(),
{
    if ps.len() == 0 {
        Seq::empty()
    } else if ps.len() == 1 {
        render_profile(ps[0])
    } else {
        render_profile_items(ps.drop_last()) + seq![','] + render_profile(ps.last())
    }
}

/// The canonical on-disk text: a JSON array of profile objects.
pub open spec fn spec_render_profiles(ps: Seq<ProfileView>) -> Seq<char> {
    seq!['['] + render_profile_items(ps) + seq![']']
}

/// The members of the profile array after the opening bracket.
pub open spec fn spec_parse_profile_items(s: Seq<char>, i: int, fuel: nat) -> Option<
    (Seq<ProfileView>, int),
>
    decreases fuel,
{
    if fuel == 0 {
        None
    } else {
        match spec_parse_profile(s, i) {
            None => None,
            Some((p, j)) => {
                if j < s.len() && s[j] == ',' {
                    match spec_parse_profile_items(s, j + 1, (fuel - 1) as nat) {
                        Some((ps, k)) => Some((seq![p] + ps, k)),
                        None => None,
                    }
                } else if j < s.len() && s[j] == ']' {
                    Some((seq![p], j + 1))
                } else {
                    None
                }
            },
        }
    }
}

/// The exact parser for the profile array.
pub open spec fn spec_parse_profiles_arr(s: Seq<char>, i: int) -> Option<(Seq<ProfileView>, int)> {
    if 0 <= i < s.len() && s[i] == '[' {
        if i + 1 < s.len() && s[i + 1] == ']' {
            Some((Seq::empty(), i + 2))
        } else {
            spec_parse_profile_items(s, i + 1, s.len())
        }
    } else {
        None
    }
}

/// The exact parser for a whole profile file: the array, and nothing
/// after it.
pub open spec fn spec_parse_profiles(s: Seq<char>) -> Option<Seq<ProfileView>> {
    match spec_parse_profiles_arr(s, 0) {
        Some((ps, j)) => if j == s.len() {
            Some(ps)
        } else {
            None
        },
        None => None,
    }
}

/// Renders the whole collection to its canonical on-disk text.
pub fn render_profiles(profiles: &Vec<Profile>) -> (out: String)
    ensures
        out@ == spec_render_profiles(views_of(profiles@)),
{
    let mut out = String::new();
    crate::text::push_char(&mut out, '[');
    let mut k: usize = 0;
    proof {
        assert(views_of(profiles@).subrange(0, 0) =~= Seq::<ProfileView>::empty());
        assert(out@ =~= seq!['['] + render_profile_items(views_of(profiles@).subrange(0, 0)));
    }
    while k < profiles.len()
        invariant
            0 <= k <= profiles@.len(),
            out@ == seq!['['] + render_profile_items(views_of(profiles@).subrange(0, k as int)),
        decreases profiles@.len() - k,
    {
        let ghost prefix = views_of(profiles@).subrange(0, k as int);
        let ghost prefix1 = views_of(profiles@).subrange(0, k + 1 as int);
        if k > 0 {
            crate::text::push_char(&mut out, ',');
        }
        render_profile_into(&mut out, &profiles[k]);
        proof {
            assert(prefix1.drop_last() =~= prefix);
            assert(prefix1.last() == views_of(profiles@)[k as int]);
            assert(views_of(profiles@)[k as int] == profiles@[k as int]@);
            if k == 0 {
                assert(render_profile_items(prefix1) == render_profile(profiles@[0]@));
                assert(out@ =~= seq!['['] + render_profile_items(prefix1));
            } else {
                assert(render_profile_items(prefix1) == render_profile_items(prefix) + seq![',']
                    + render_profile(profiles@[k as int]@));
                assert(out@ =~= seq!['['] + render_profile_items(prefix1));
            }
        }
        k += 1;
    }
    crate::text::push_char(&mut out, ']');
    proof {
        assert(views_of(profiles@).subrange(0, profiles@.len() as int) =~= views_of(profiles@));
        assert(out@ =~= spec_render_profiles(views_of(profiles@)));
    }
    out
}

/// Parses the members of the profile array as `spec_parse_profile_items`
/// describes.
fn parse_profile_items(s: &str, i: usize, fuel: usize) -> (r: Option<(Vec<Profile>, usize)>)
    requires
        i <= s@.len(),
    ensures
        match r {
            Some((v, k)) => i < k <= s@.len() && spec_parse_profile_items(
                s@,
                i as int,
                fuel as nat,
            ) == Some((views_of(v@), k as int)),
            None => spec_parse_profile_items(s@, i as int, fuel as nat) is None,
        },
    decreases fuel,
{
    if fuel == 0 {
        return None;
    }
    let n = s.unicode_len();
    match parse_profile(s, i) {
        None => None,
        Some((p, j)) => {
            if j < n && s.get_char(j) == ',' {
                match parse_profile_items(s, j + 1, fuel - 1) {
                    Some((mut v, k)) => {
                        let ghost pre_v = v@;
                        v.insert(0, p);
                        proof {
                            assert(views_of(v@) =~= seq![p@] + views_of(pre_v));
                        }
                        Some((v, k))
                    },
                    None => None,
                }
            } else if j < n && s.get_char(j) == ']' {
                let mut v: Vec<Profile> = Vec::new();
                v.push(p);
                proof {
                    assert(views_of(v@) =~= seq![p@]);
                }
                Some((v, j + 1))
            } else {
                None
            }
        },
    }
}

/// Parses a whole profile file as `spec_parse_profiles` describes:
/// the canonical array, with nothing before or after it.
pub fn parse_profiles(s: &str) -> (r: Option<Vec<Profile>>)
    ensures
        match r {
            Some(v) => spec_parse_profiles(s@) == Some(views_of(v@)),
            None => spec_parse_profiles(s@) is None,
        },
{
    let n = s.unicode_len();
    if n == 0 || s.get_char(0) != '[' {
        return None;
    }
    let arr = if 1 < n && s.get_char(1) == ']' {
        let v: Vec<Profile> = Vec::new();
        proof {
            assert(views_of(v@) =~= Seq::<ProfileView>::empty());
        }
        Some((v, 2))
    } else {
        parse_profile_items(s, 1, n)
    };
    match arr {
        Some((v, j)) => {
            if j == n {
                Some(v)
            } else {
                None
            }
        },
        None => None,
    }
}

/// Concatenation with an empty middle piece collapses.
pub proof fn lemma_concat_empty_mid(a: Seq<char>, b: Seq<char>)
    ensures
        (a + Seq::<char>::empty()) + b == a + b,
{
    assert((a + Seq::<char>::empty()) + b =~= a + b);
}

/// Re-association of a four-part concatenation.
pub proof fn lemma_reassoc(a: Seq<char>, x: Seq<char>, y: Seq<char>, z: Seq<char>)
    ensures
        (a + (x + y)) + z == a + (x + (y + z)),
{
    assert((a + (x + y)) + z =~= a + (x + (y + z)));
}

/// The profile members decompose from the front as well.
#[verifier::rlimit(100)]
pub proof fn lemma_profile_items_first(ps: Seq<ProfileView>)
    requires
        ps.len() >= 1,
    ensures
        render_profile_items(ps) == render_profile(ps[0]) + (if ps.len() == 1 {
            Seq::<char>::empty()
        } else {
            seq![','] + render_profile_items(ps.subrange(1, ps.len() as int))
        }),
    decreases ps.len(),
{
    if ps.len() == 1 {
        assert(render_profile(ps[0]) + Seq::<char>::empty() =~= render_profile(ps[0]));
    } else {
        let dl = ps.drop_last();
        let t2 = ps.subrange(1, ps.len() as int);
        lemma_profile_items_first(dl);
        assert(dl[0] == ps[0]);
        assert(t2.drop_last() =~= dl.subrange(1, dl.len() as int));
        assert(t2.last() == ps.last());
        if ps.len() == 2 {
            assert(render_profile_items(dl) == render_profile(ps[0]) + Seq::<char>::empty());
            assert(render_profile_items(dl) =~= render_profile(ps[0]));
            assert(t2 =~= seq![ps[1]]);
            assert(t2.len() == 1);
            assert(render_profile_items(t2) == render_profile(ps[1]));
            assert((render_profile(ps[0]) + seq![','] + render_profile(ps.last())) =~= render_profile(
                ps[0],
            ) + (seq![','] + render_profile_items(t2)));
        } else {
            assert(render_profile_items(t2) == render_profile_items(t2.drop_last()) + seq![',']
                + render_profile(t2.last()));
            assert(render_profile_items(ps) == (render_profile(ps[0]) + (seq![',']
                + render_profile_items(dl.subrange(1, dl.len() as int)))) + seq![',']
                + render_profile(ps.last()));
            assert((render_profile(ps[0]) + (seq![','] + render_profile_items(
                dl.subrange(1, dl.len() as int),
            ))) + seq![','] + render_profile(ps.last()) =~= render_profile(ps[0]) + (seq![','] + (
            render_profile_items(t2.drop_last()) + seq![','] + render_profile(t2.last()))));
        }
    }
}

/// A rendered profile object is never empty.
pub proof fn lemma_render_profile_len(p: ProfileView)
    ensures
        render_profile(p).len() >= 1,
{
    reveal(render_profile);
    assert(render_string(p.id).len() >= 2);
}

/// The joined profile members are at least as long as their count.
pub proof fn lemma_profile_items_len(ps: Seq<ProfileView>)
    requires
        ps.len() >= 1,
    ensures
        render_profile_items(ps).len() >= ps.len(),
    decreases ps.len(),
{
    if ps.len() == 1 {
        lemma_render_profile_len(ps[0]);
    } else {
        lemma_profile_items_len(ps.drop_last());
        lemma_render_profile_len(ps.last());
    }
}

/// Reading back rendered profile members yields them.
#[verifier::rlimit(100)]
pub proof fn lemma_parse_profile_items_round_trip(
    s: Seq<char>,
    i: int,
    j: int,
    ps: Seq<ProfileView>,
    fuel: nat,
)
    requires
        ps.len() >= 1,
        fuel >= ps.len(),
        0 <= i <= j <= s.len(),
        s.subrange(i, j) == render_profile_items(ps) + seq![']'],
    ensures
        spec_parse_profile_items(s, i, fuel) == Some((ps, j)),
    decreases ps.len(),
{
    lemma_profile_items_first(ps);
    let p0 = ps[0];
    let a = render_profile(p0);
    if ps.len() == 1 {
        lemma_concat_empty_mid(a, seq![']']);
        assert(render_profile_items(ps) + seq![']'] == a + seq![']']);
        lemma_subrange_split(s, i, j, a, seq![']']);
        let i1 = i + a.len();
        lemma_parse_profile_round_trip(s, i, i1, p0);
        assert(s.subrange(i1, j)[0] == s[i1]);
        assert(s[i1] == ']');
        assert(seq![p0] =~= ps);
    } else {
        let rest = ps.subrange(1, ps.len() as int);
        let tail = render_profile_items(rest) + seq![']'];
        lemma_reassoc(a, seq![','], render_profile_items(rest), seq![']']);
        assert(render_profile_items(ps) + seq![']'] == a + (seq![','] + tail));
        lemma_subrange_split(s, i, j, a, seq![','] + tail);
        let i1 = i + a.len();
        lemma_parse_profile_round_trip(s, i, i1, p0);
        lemma_subrange_split(s, i1, j, seq![','], tail);
        assert(s.subrange(i1, i1 + 1)[0] == s[i1]);
        assert(s[i1] == ',');
        lemma_parse_profile_items_round_trip(s, i1 + 1, j, rest, (fuel - 1) as nat);
        assert(seq![p0] + rest =~= ps);
    }
}

/// Reading back a rendered profile array yields it.
#[verifier::rlimit(100)]
pub proof fn lemma_parse_profiles_arr_round_trip(s: Seq<char>, i: int, j: int, ps: Seq<
    ProfileView,
>)
    requires
        0 <= i <= j <= s.len(),
        s.subrange(i, j) == spec_render_profiles(ps),
    ensures
        spec_parse_profiles_arr(s, i) == Some((ps, j)),
{
    reveal(render_profile);
    reveal_strlit("{\"id\":");
    let items = render_profile_items(ps);
    lemma_subrange_split(s, i, j, seq!['['] + items, seq![']']);
    let iend = i + 1 + items.len();
    lemma_subrange_split(s, i, iend, seq!['['], items);
    assert(s.subrange(i, i + 1)[0] == s[i]);
    assert(s[i] == '[');
    assert(s.subrange(iend, j)[0] == s[iend]);
    assert(s[iend] == ']');
    if ps.len() == 0 {
        assert(items.len() == 0);
        assert(j == i + 2);
        assert(s[i + 1] == ']');
        assert(ps =~= Seq::<ProfileView>::empty());
    } else {
        lemma_profile_items_first(ps);
        assert(render_profile(ps[0])[0] == '{');
        assert(items[0] == '{');
        assert(s.subrange(i + 1, iend)[0] == s[i + 1]);
        assert(s[i + 1] == '{');
        assert forall|q: int| 0 <= q < items.len() + 1 implies s.subrange(i + 1, j)[q] == (items
            + seq![']'])[q] by {
            if q < items.len() {
                assert(s.subrange(i + 1, iend)[q] == s[i + 1 + q]);
            } else {
                assert(s.subrange(iend, j)[0] == s[iend]);
            }
            assert(s.subrange(i + 1, j)[q] == s[i + 1 + q]);
        }
        assert(s.subrange(i + 1, j) =~= items + seq![']']);
        lemma_profile_items_len(ps);
        assert(items.len() <= s.len());
        lemma_parse_profile_items_round_trip(s, i + 1, j, ps, s.len());
    }
}

/// Law: the store round-trips through its on-disk form.  Parsing the
/// rendered text of any collection yields exactly that collection.
pub proof fn lemma_profiles_round_trip(ps: Seq<ProfileView>)
    ensures
        spec_parse_profiles(spec_render_profiles(ps)) == Some(ps),
{
    let s = spec_render_profiles(ps);
    assert(s.subrange(0, s.len() as int) =~= s);
    lemma_parse_profiles_arr_round_trip(s, 0, s.len() as int, ps);
}

} // verus!
