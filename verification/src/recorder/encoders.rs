//! H.264 encoders: the candidates in order of preference, the choice among
//! those installed, and the properties each is configured with. Whether an
//! encoder is installed is asked of GStreamer by the caller.
use vstd::prelude::*;


verus! {

#[derive(Clone, Copy, Debug, PartialEq, Eq, Structural)]
pub enum Codec {
    H264,
}

#[derive(Clone, Copy, Debug, PartialEq, Eq, Structural)]
pub enum Backend {
    Software,
    Vaapi,
    Nvenc,
    Qsv,
    /// `vah264enc` of the va plugin.
    VaNew,
}

impl Backend {
    pub open spec fn is_hw_spec(self) -> bool {
        !(self is Software)
    }

    /// The backend runs on a GPU or other hardware encoder.
    pub fn is_hw(self) -> (r: bool)
        ensures
            r == self.is_hw_spec(),
    {
        match self {
            Backend::Software => false,
            _ => true,
        }
    }

    pub open spec fn label_spec(self) -> Seq<char> {
        match self {
            Backend::Software => "Software"@,
            Backend::Vaapi => "VAAPI (legacy)"@,
            Backend::VaNew => "VAAPI (va-plugin)"@,
            Backend::Nvenc => "NVENC"@,
            Backend::Qsv => "Intel QSV"@,
        }
    }

    /// A name of the backend for display.
    pub fn label(self) -> (r: &'static str)
        ensures
            r@ == self.label_spec(),
    {
        match self {
            Backend::Software => "Software",
            Backend::Vaapi => "VAAPI (legacy)",
            Backend::VaNew => "VAAPI (va-plugin)",
            Backend::Nvenc => "NVENC",
            Backend::Qsv => "Intel QSV",
        }
    }
}

/// A GStreamer encoder element and what it encodes with.
#[derive(Clone, Copy, Debug)]
pub struct EncoderInfo {
    pub factory_name: &'static str,
    pub codec: Codec,
    pub backend: Backend,
}

/// Number of candidate encoders.
pub open spec fn candidate_count() -> nat {
    5
}

/// The candidates in order of preference under `HwHint::Auto`: NVENC, then
/// VAAPI (va plugin, then legacy), then Quick Sync, then the x264 software encoder.
pub open spec fn candidate_name(i: int) -> Seq<char> {
    if i == 0 {
        "nvh264enc"@
    } else if i == 1 {
        "vah264enc"@
    } else if i == 2 {
        "vaapih264enc"@
    } else if i == 3 {
        "qsvh264enc"@
    } else {
        "x264enc"@
    }
}

pub open spec fn candidate_backend(i: int) -> Backend {
    if i == 0 {
        Backend::Nvenc
    } else if i == 1 {
        Backend::VaNew
    } else if i == 2 {
        Backend::Vaapi
    } else if i == 3 {
        Backend::Qsv
    } else {
        Backend::Software
    }
}

/// `e` is candidate number `i`.
pub open spec fn is_candidate(e: EncoderInfo, i: int) -> bool {
    &&& e.factory_name@ == candidate_name(i)
    &&& e.codec == Codec::H264
    &&& e.backend == candidate_backend(i)
}

fn candidate(i: usize) -> (e: EncoderInfo)
    requires
        i < 5,
    ensures
        is_candidate(e, i as int),
{
    if i == 0 {
        EncoderInfo { factory_name: "nvh264enc", codec: Codec::H264, backend: Backend::Nvenc }
    } else if i == 1 {
        EncoderInfo { factory_name: "vah264enc", codec: Codec::H264, backend: Backend::VaNew }
    } else if i == 2 {
        EncoderInfo { factory_name: "vaapih264enc", codec: Codec::H264, backend: Backend::Vaapi }
    } else if i == 3 {
        EncoderInfo { factory_name: "qsvh264enc", codec: Codec::H264, backend: Backend::Qsv }
    } else {
        EncoderInfo { factory_name: "x264enc", codec: Codec::H264, backend: Backend::Software }
    }
}

/// All candidates, in order of preference.
pub fn candidates() -> (r: Vec<EncoderInfo>)
    ensures
        r@.len() == candidate_count(),
        forall|i: int| 0 <= i < r@.len() ==> is_candidate(#[trigger] r@[i], i),
{
    let mut r: Vec<EncoderInfo> = Vec::new();
    let mut i: usize = 0;
    while i < 5
        invariant
            i <= 5,
            r@.len() == i,
            forall|k: int| 0 <= k < i ==> is_candidate(#[trigger] r@[k], k),
        decreases 5 - i,
    {
        r.push(candidate(i));
        i = i + 1;
    }
    r
}

/// Indices of the candidates marked present, in order.
pub open spec fn present_indices(present: Seq<bool>) -> Seq<int>
    decreases present.len(),
{
    if present.len() == 0 {
        seq![]
    } else {
        let rest = present_indices(present.drop_last());
        if present.last() {
            rest.push(present.len() - 1)
        } else {
            rest
        }
    }
}

/// The candidates that are installed, keeping their order: `present[i]`
/// tells whether GStreamer has a factory for candidate `i`.
pub fn available_encoders(present: &Vec<bool>) -> (r: Vec<EncoderInfo>)
    requires
        present@.len() == candidate_count(),
    ensures
        r@.len() == present_indices(present@).len(),
        forall|k: int| 0 <= k < r@.len() ==> is_candidate(#[trigger] r@[k], present_indices(present@)[k]),
{
    let all = candidates();
    let mut r: Vec<EncoderInfo> = Vec::new();
    let mut i: usize = 0;
    while i < 5
        invariant
            i <= 5,
            present@.len() == 5,
            all@.len() == 5,
            forall|k: int| 0 <= k < 5 ==> is_candidate(#[trigger] all@[k], k),
            r@.len() == present_indices(present@.subrange(0, i as int)).len(),
            forall|k: int| 0 <= k < r@.len() ==> is_candidate(#[trigger] r@[k], present_indices(present@.subrange(0, i as int))[k]),
        decreases 5 - i,
    {
        assert(present@.subrange(0, i + 1).drop_last() == present@.subrange(0, i as int));
        if present[i] {
            r.push(all[i]);
        }
        i = i + 1;
    }
    assert(present@.subrange(0, 5) == present@);
    r
}

/// The present indices are exactly the candidates marked present, in
/// increasing order.
pub proof fn lemma_present_indices(present: Seq<bool>)
    ensures
        forall|k: int|
            0 <= k < present_indices(present).len() ==> 0 <= #[trigger] present_indices(present)[k]
                < present.len() && present[present_indices(present)[k]],
        forall|k1: int, k2: int|
            0 <= k1 < k2 < present_indices(present).len() ==> #[trigger] present_indices(present)[k1]
                < #[trigger] present_indices(present)[k2],
        forall|i: int|
            0 <= i < present.len() && #[trigger] present[i] ==> exists|k: int|
                0 <= k < present_indices(present).len() && present_indices(present)[k] == i,
    decreases present.len(),
{
    if present.len() > 0 {
        let p = present.drop_last();
        lemma_present_indices(p);
        let idx = present_indices(present);
        let pidx = present_indices(p);
        assert forall|i: int| 0 <= i < present.len() && #[trigger] present[i] implies exists|k: int|
            0 <= k < idx.len() && idx[k] == i by {
            if i < present.len() - 1 {
                assert(p[i] == present[i]);
                let k = choose|k: int| 0 <= k < pidx.len() && pidx[k] == i;
                assert(idx[k] == pidx[k]);
            } else {
                assert(idx[idx.len() - 1] == i);
            }
        }
    }
}

#[derive(Clone, Copy, Debug, PartialEq, Eq, Structural)]
pub enum HwHint {
    Auto,
    ForceHw,
    ForceSw,
}

/// `e` encodes `codec` with a backend that `hint` allows.
pub open spec fn acceptable(e: EncoderInfo, codec: Codec, hint: HwHint) -> bool {
    &&& e.codec == codec
    &&& match hint {
        HwHint::Auto => true,
        HwHint::ForceHw => e.backend.is_hw_spec(),
        HwHint::ForceSw => !e.backend.is_hw_spec(),
    }
}

fn is_acceptable(e: EncoderInfo, codec: Codec, hint: HwHint) -> (r: bool)
    ensures
        r == acceptable(e, codec, hint),
{
    let codec_ok = match (e.codec, codec) {
        (Codec::H264, Codec::H264) => true,
    };
    codec_ok && match hint {
        HwHint::Auto => true,
        HwHint::ForceHw => e.backend.is_hw(),
        HwHint::ForceSw => !e.backend.is_hw(),
    }
}

/// The first available encoder for `codec` that `hint` allows.
pub fn select_encoder(available: &Vec<EncoderInfo>, codec: Codec, hint: HwHint) -> (r: Option<EncoderInfo>)
    ensures
        match r {
            Some(e) => exists|i: int|
                0 <= i < available@.len() && available@[i] == e && acceptable(e, codec, hint)
                    && forall|j: int| 0 <= j < i ==> !acceptable(#[trigger] available@[j], codec, hint),
            None => forall|j: int| 0 <= j < available@.len() ==> !acceptable(#[trigger] available@[j], codec, hint),
        },
{
    let mut i: usize = 0;
    while i < available.len()
        invariant
            i <= available@.len(),
            forall|j: int| 0 <= j < i ==> !acceptable(#[trigger] available@[j], codec, hint),
        decreases available@.len() - i,
    {
        let e = available[i];
        if is_acceptable(e, codec, hint) {
            assert(available@[i as int] == e);
            return Some(e);
        }
        i = i + 1;
    }
    None
}

/// Under `HwHint::Auto` the installed candidate of highest preference is
/// chosen, so a hardware encoder whenever one is installed, and the software
/// encoder only when none is.
pub proof fn lemma_auto_prefers_installed_hardware(
    present: Seq<bool>,
    available: Seq<EncoderInfo>,
    chosen: EncoderInfo,
)
    requires
        present.len() == candidate_count(),
        available.len() == present_indices(present).len(),
        forall|k: int| 0 <= k < available.len() ==> is_candidate(#[trigger] available[k], present_indices(present)[k]),
        exists|i: int|
            0 <= i < available.len() && available[i] == chosen && acceptable(chosen, Codec::H264, HwHint::Auto)
                && forall|j: int| 0 <= j < i ==> !acceptable(#[trigger] available[j], Codec::H264, HwHint::Auto),
    ensures
        forall|i: int| 0 <= i < present.len() && #[trigger] present[i] ==> exists|k: int|
            0 <= k <= i && is_candidate(chosen, k) && present[k],
        chosen.backend.is_hw_spec() <==> exists|i: int| 0 <= i < 4 && #[trigger] present[i],
{
    lemma_present_indices(present);
    let idx = present_indices(present);
    let i0 = choose|i: int|
        0 <= i < available.len() && available[i] == chosen && acceptable(chosen, Codec::H264, HwHint::Auto)
            && forall|j: int| 0 <= j < i ==> !acceptable(#[trigger] available[j], Codec::H264, HwHint::Auto);
    if i0 > 0 {
        assert(is_candidate(available[0], idx[0]));
        assert(acceptable(available[0], Codec::H264, HwHint::Auto));
    }
    assert(i0 == 0);
    assert(is_candidate(chosen, idx[0]));
    assert forall|i: int| 0 <= i < present.len() && #[trigger] present[i] implies exists|k: int|
        0 <= k <= i && is_candidate(chosen, k) && present[k] by {
        let k = choose|k: int| 0 <= k < idx.len() && idx[k] == i;
        if k > 0 {
            assert(idx[0] < idx[k]);
        }
    }
    if exists|i: int| 0 <= i < 4 && #[trigger] present[i] {
        let i = choose|i: int| 0 <= i < 4 && #[trigger] present[i];
        let k = choose|k: int| 0 <= k < idx.len() && idx[k] == i;
        if k > 0 {
            assert(idx[0] < idx[k]);
        }
        assert(idx[0] < 4);
    }
    if chosen.backend.is_hw_spec() {
        assert(idx[0] < 4);
        assert(present[idx[0]]);
    }
}

/// A value given to an element property.
#[derive(Clone, Debug)]
pub enum PropertyValue {
    U32(u32),
    Bool(bool),
    /// Set from its textual form (`set_property_from_str`), as for enumerations.
    Parsed(String),
}

/// A property to set on the encoder element.
#[derive(Clone, Debug)]
pub struct EncoderProperty {
    pub name: String,
    pub value: PropertyValue,
}

pub enum ValueView {
    U32(u32),
    Bool(bool),
    Parsed(Seq<char>),
}

pub open spec fn value_view(v: PropertyValue) -> ValueView {
    match v {
        PropertyValue::U32(n) => ValueView::U32(n),
        PropertyValue::Bool(b) => ValueView::Bool(b),
        PropertyValue::Parsed(s) => ValueView::Parsed(s@),
    }
}

pub open spec fn property_views(p: Seq<EncoderProperty>) -> Seq<(Seq<char>, ValueView)> {
    p.map_values(|e: EncoderProperty| (e.name@, value_view(e.value)))
}

pub open spec fn clamp_u32(v: u32, lo: u32, hi: u32) -> u32 {
    if v < lo {
        lo
    } else if v > hi {
        hi
    } else {
        v
    }
}

/// The properties each encoder is configured with, in the order they are set.
pub open spec fn encoder_properties_spec(factory: Seq<char>, bitrate_kbps: u32) -> Seq<(Seq<char>, ValueView)> {
    if factory == "x264enc"@ {
        seq![("bitrate"@, ValueView::U32(bitrate_kbps)), ("key-int-max"@, ValueView::U32(
            clamp_u32(bitrate_kbps, 10, 100),
        )), ("bframes"@, ValueView::U32(0)), ("byte-stream"@, ValueView::Bool(false)), ("tune"@,
        ValueView::Parsed("zerolatency"@)), ("speed-preset"@, ValueView::Parsed("veryfast"@))]
    } else if factory == "vaapih264enc"@ {
        seq![("bitrate"@, ValueView::U32(bitrate_kbps)), ("keyframe-period"@, ValueView::U32(100)), (
            "rate-control"@,
            ValueView::Parsed("cbr"@),
        )]
    } else if factory == "vah264enc"@ {
        seq![("bitrate"@, ValueView::U32(bitrate_kbps)), ("rate-control"@, ValueView::Parsed("cbr"@))]
    } else if factory == "nvh264enc"@ {
        seq![("bitrate"@, ValueView::U32(bitrate_kbps)), ("preset"@, ValueView::Parsed(
            "low-latency-hq"@,
        )), ("rc-mode"@, ValueView::Parsed("cbr"@))]
    } else if factory == "qsvh264enc"@ {
        seq![("bitrate"@, ValueView::U32(bitrate_kbps)), ("target-usage"@, ValueView::U32(4))]
    } else {
        seq![]
    }
}

fn push_prop(props: &mut Vec<EncoderProperty>, name: &str, value: PropertyValue)
    ensures
        property_views(final(props)@) == property_views(old(props)@).push((name@, value_view(value))),
{
    let ghost before = props@;
    let ghost v = value;
    props.push(EncoderProperty { name: name.to_owned(), value });
    assert(property_views(props@) == property_views(before).push((name@, value_view(v))));
}

/// The properties to set on encoder `factory_name` for a target bitrate.
pub fn encoder_properties(factory_name: &str, bitrate_kbps: u32) -> (r: Vec<EncoderProperty>)
    ensures
        property_views(r@) == encoder_properties_spec(factory_name@, bitrate_kbps),
        known_encoder(factory_name@) ==> r@.len() > 0 && r@[0].name@ == "bitrate"@ && r@[0].value
            == PropertyValue::U32(bitrate_kbps),
{
    let mut p: Vec<EncoderProperty> = Vec::new();
    if crate::text::str_eq(factory_name, "x264enc") {
        let key_int: u32 = if bitrate_kbps < 10 {
            10
        } else if bitrate_kbps > 100 {
            100
        } else {
            bitrate_kbps
        };
        push_prop(&mut p, "bitrate", PropertyValue::U32(bitrate_kbps));
        push_prop(&mut p, "key-int-max", PropertyValue::U32(key_int));
        push_prop(&mut p, "bframes", PropertyValue::U32(0));
        push_prop(&mut p, "byte-stream", PropertyValue::Bool(false));
        push_prop(&mut p, "tune", PropertyValue::Parsed("zerolatency".to_owned()));
        push_prop(&mut p, "speed-preset", PropertyValue::Parsed("veryfast".to_owned()));
    } else if crate::text::str_eq(factory_name, "vaapih264enc") {
        push_prop(&mut p, "bitrate", PropertyValue::U32(bitrate_kbps));
        push_prop(&mut p, "keyframe-period", PropertyValue::U32(100));
        push_prop(&mut p, "rate-control", PropertyValue::Parsed("cbr".to_owned()));
    } else if crate::text::str_eq(factory_name, "vah264enc") {
        push_prop(&mut p, "bitrate", PropertyValue::U32(bitrate_kbps));
        push_prop(&mut p, "rate-control", PropertyValue::Parsed("cbr".to_owned()));
    } else if crate::text::str_eq(factory_name, "nvh264enc") {
        push_prop(&mut p, "bitrate", PropertyValue::U32(bitrate_kbps));
        push_prop(&mut p, "preset", PropertyValue::Parsed("low-latency-hq".to_owned()));
        push_prop(&mut p, "rc-mode", PropertyValue::Parsed("cbr".to_owned()));
    } else if crate::text::str_eq(factory_name, "qsvh264enc") {
        push_prop(&mut p, "bitrate", PropertyValue::U32(bitrate_kbps));
        push_prop(&mut p, "target-usage", PropertyValue::U32(4));
    }
    assert(property_views(p@) == encoder_properties_spec(factory_name@, bitrate_kbps));
    proof {
        lemma_every_encoder_gets_the_bitrate(factory_name@, bitrate_kbps);
        if known_encoder(factory_name@) {
            assert(property_views(p@)[0] == (p@[0].name@, value_view(p@[0].value)));
        }
    }
    p
}

/// The encoders the recorder knows.
pub open spec fn known_encoder(factory: Seq<char>) -> bool {
    factory == "x264enc"@ || factory == "vaapih264enc"@ || factory == "vah264enc"@ || factory
        == "nvh264enc"@ || factory == "qsvh264enc"@
}

/// Every known encoder is given the requested bitrate, as its first property;
/// an unknown one is given nothing.
pub proof fn lemma_every_encoder_gets_the_bitrate(factory: Seq<char>, bitrate_kbps: u32)
    ensures
        known_encoder(factory) ==> encoder_properties_spec(factory, bitrate_kbps).len() > 0
            && encoder_properties_spec(factory, bitrate_kbps)[0] == ("bitrate"@, ValueView::U32(
            bitrate_kbps,
        )),
        !known_encoder(factory) ==> encoder_properties_spec(factory, bitrate_kbps).len() == 0,
{
}

pub open spec fn converter_spec(backend: Backend) -> Seq<char> {
    match backend {
        Backend::Vaapi => "vaapipostproc"@,
        Backend::VaNew => "vapostproc"@,
        Backend::Nvenc => "nvvidconv"@,
        Backend::Qsv => "videoconvert"@,
        Backend::Software => "videoconvert"@,
    }
}

/// The colour-conversion element placed before an encoder of `backend`.
pub fn preencoder_converter_factory(backend: Backend) -> (r: &'static str)
    ensures
        r@ == converter_spec(backend),
{
    match backend {
        Backend::Vaapi => "vaapipostproc",
        Backend::VaNew => "vapostproc",
        Backend::Nvenc => "nvvidconv",
        Backend::Qsv => "videoconvert",
        Backend::Software => "videoconvert",
    }
}

} // verus!
