//! The report projection: flattens the parsed box tree into plain records
//! with display text, one per box, children nested.

use vstd::prelude::*;
use vstd::string::StringExecFns;
use crate::boxes::{fourcc_display, BoxKey, BoxRef, NodeKind};
use crate::errors::{AnalysisError, DecodeError, DecodeErrorKind};
use crate::parser::{box_wf, children_linked, lemma_span_box_wf, parse_children};
use crate::registry::{spec_registered, BoxValue, Registry, StructuredData, default_registry};
use crate::samples::{lemma_child_subtree_ok, spec_child_payload, subtree_ok};
use crate::strings::{dec_of, hex_of_bytes, push_dec, push_hex_byte};

verus! {

/// One box of the report: its extent, type, classification and display
/// strings, with its children nested.
pub struct JsonBox {
    pub offset: u64,
    pub size: u64,
    pub typ: String,
    pub uuid: Option<String>,
    pub version: Option<u8>,
    pub flags: Option<u32>,
    pub kind: String,
    pub full_name: String,
    pub decoded: Option<String>,
    pub children: Option<Vec<JsonBox>>,
}

/// The dispatch key and payload extent a decoder would get for this box:
/// `None` for containers and for leaves with empty payloads.
///
/// Two choices are deliberate.  A full box's region includes its
/// `version + flags` prefix, which this crate's decoders consume
/// themselves, and is offered even when the remaining body is empty: a
/// payload too short for its decoder then surfaces as a decode-failure
/// value rather than an omitted field.  A to-region-end (size-0) leaf
/// exposes its whole tail, whose length the parser has already resolved.
pub open spec fn spec_payload_region(b: BoxRef) -> Option<(BoxKey, u64, u64)> {
    let key = match b.hdr.uuid {
        Option::Some(u) => BoxKey::Uuid(u),
        Option::None => BoxKey::FourCC(b.hdr.typ),
    };
    match b.kind {
        NodeKind::FullBox { data_offset, data_len, .. } => Some(
            (key, (data_offset - 4) as u64, (data_len + 4) as u64),
        ),
        NodeKind::Leaf { data_offset, data_len } => if data_len == 0 {
            None
        } else {
            Some((key, data_offset, data_len))
        },
        NodeKind::Unknown { data_offset, data_len } => if data_len == 0 {
            None
        } else {
            Some((key, data_offset, data_len))
        },
        NodeKind::Container(_) => None,
    }
}

/// The dispatch key and absolute payload extent of one box, as handed to
/// the registry; `None` when there is nothing to decode.
pub fn payload_region(b: &BoxRef, Ghost(s): Ghost<Seq<u8>>) -> (r: Option<(BoxKey, u64, u64)>)
    requires
        subtree_ok(s, *b),
        s.len() <= usize::MAX,
    ensures
        r == spec_payload_region(*b),
{
    proof {
        let e = choose|e: int| box_wf(s, *b, e);
        assert(box_wf(s, *b, e));
    }
    let key = match &b.hdr.uuid {
        Option::Some(u) => BoxKey::Uuid(*u),
        Option::None => BoxKey::FourCC(b.hdr.typ),
    };
    match &b.kind {
        NodeKind::FullBox { data_offset, data_len, .. } => Some(
            (key, *data_offset - 4, *data_len + 4),
        ),
        NodeKind::Leaf { data_offset, data_len } => if *data_len == 0 {
            None
        } else {
            Some((key, *data_offset, *data_len))
        },
        NodeKind::Unknown { data_offset, data_len } => if *data_len == 0 {
            None
        } else {
            Some((key, *data_offset, *data_len))
        },
        NodeKind::Container(_) => None,
    }
}

/// The display text of an error kind.
pub open spec fn spec_kind_text(k: DecodeErrorKind) -> Seq<char> {
    match k {
        DecodeErrorKind::Short => "short payload"@,
        DecodeErrorKind::InvalidField => "invalid field"@,
        DecodeErrorKind::Unsupported => "unsupported"@,
    }
}

/// The one-line summary of a typed decoding.
pub open spec fn spec_summary(sd: StructuredData) -> Seq<char> {
    match sd {
        StructuredData::SampleDescription(d) => "sample description, "@ + dec_of(
            d.entries@.len() as int,
        ) + " entries"@,
        StructuredData::DecodingTimeToSample(d) => "time-to-sample, "@ + dec_of(
            d.entries@.len() as int,
        ) + " entries"@,
        StructuredData::CompositionTimeToSample(d) => "composition offsets, "@ + dec_of(
            d.entries@.len() as int,
        ) + " entries"@,
        StructuredData::SampleToChunk(d) => "sample-to-chunk, "@ + dec_of(
            d.entries@.len() as int,
        ) + " entries"@,
        StructuredData::SampleSize(d) => if d.sample_size > 0 {
            "fixed sample size "@ + dec_of(d.sample_size as int) + ", "@ + dec_of(
                d.sample_count as int,
            ) + " samples"@
        } else {
            "sample sizes, "@ + dec_of(d.sample_count as int) + " samples"@
        },
        StructuredData::SyncSample(d) => "sync samples, "@ + dec_of(
            d.sample_numbers@.len() as int,
        ) + " entries"@,
        StructuredData::ChunkOffset(d) => "chunk offsets, "@ + dec_of(
            d.chunk_offsets@.len() as int,
        ) + " entries"@,
        StructuredData::ChunkOffset64(d) => "chunk offsets, "@ + dec_of(
            d.chunk_offsets@.len() as int,
        ) + " entries"@,
        StructuredData::MediaHeader(d) => "media header, timescale "@ + dec_of(d.timescale as int)
            + ", duration "@ + dec_of(d.duration as int),
        StructuredData::HandlerReference(d) => "handler "@ + d.handler_type@,
    }
}

/// The display text of one decode outcome: decoded text as itself, raw
/// bytes as their count, typed records as a one-line summary, and a failure
/// as a bracketed error note.
pub open spec fn spec_render_result(r: Result<BoxValue, DecodeError>) -> Seq<char> {
    match r {
        Ok(BoxValue::Text(t)) => t@,
        Ok(BoxValue::Bytes(bs)) => dec_of(bs@.len() as int) + " bytes"@,
        Ok(BoxValue::Structured(sd)) => spec_summary(sd),
        Err(e) => "[decode error: "@ + spec_kind_text(e.kind) + "]"@,
    }
}

fn kind_text(k: DecodeErrorKind) -> (r: &'static str)
    ensures
        r@ == spec_kind_text(k),
{
    match k {
        DecodeErrorKind::Short => "short payload",
        DecodeErrorKind::InvalidField => "invalid field",
        DecodeErrorKind::Unsupported => "unsupported",
    }
}

fn summary(sd: &StructuredData) -> (r: String)
    ensures
        r@ == spec_summary(*sd),
{
    match sd {
        StructuredData::SampleDescription(d) => {
            let mut s = String::from_str("sample description, ");
            push_dec(&mut s, d.entries.len() as u64);
            s.append(" entries");
            s
        },
        StructuredData::DecodingTimeToSample(d) => {
            let mut s = String::from_str("time-to-sample, ");
            push_dec(&mut s, d.entries.len() as u64);
            s.append(" entries");
            s
        },
        StructuredData::CompositionTimeToSample(d) => {
            let mut s = String::from_str("composition offsets, ");
            push_dec(&mut s, d.entries.len() as u64);
            s.append(" entries");
            s
        },
        StructuredData::SampleToChunk(d) => {
            let mut s = String::from_str("sample-to-chunk, ");
            push_dec(&mut s, d.entries.len() as u64);
            s.append(" entries");
            s
        },
        StructuredData::SampleSize(d) => {
            if d.sample_size > 0 {
                let mut s = String::from_str("fixed sample size ");
                push_dec(&mut s, d.sample_size as u64);
                s.append(", ");
                push_dec(&mut s, d.sample_count as u64);
                s.append(" samples");
                s
            } else {
                let mut s = String::from_str("sample sizes, ");
                push_dec(&mut s, d.sample_count as u64);
                s.append(" samples");
                s
            }
        },
        StructuredData::SyncSample(d) => {
            let mut s = String::from_str("sync samples, ");
            push_dec(&mut s, d.sample_numbers.len() as u64);
            s.append(" entries");
            s
        },
        StructuredData::ChunkOffset(d) => {
            let mut s = String::from_str("chunk offsets, ");
            push_dec(&mut s, d.chunk_offsets.len() as u64);
            s.append(" entries");
            s
        },
        StructuredData::ChunkOffset64(d) => {
            let mut s = String::from_str("chunk offsets, ");
            push_dec(&mut s, d.chunk_offsets.len() as u64);
            s.append(" entries");
            s
        },
        StructuredData::MediaHeader(d) => {
            let mut s = String::from_str("media header, timescale ");
            push_dec(&mut s, d.timescale as u64);
            s.append(", duration ");
            push_dec(&mut s, d.duration);
            s
        },
        StructuredData::HandlerReference(d) => {
            let mut s = String::from_str("handler ");
            s.append(d.handler_type.as_str());
            s
        },
    }
}

/// What a produced `decoded` string may be: the rendering of some outcome
/// that the registered decoder's contract allows on this box's payload.
pub open spec fn decoded_rel(s: Seq<u8>, b: BoxRef, text: Seq<char>) -> bool {
    spec_payload_region(b) matches Some(region) && spec_registered(region.0) && (exists|
        res: Result<BoxValue, DecodeError>,
    |
        {
            &&& #[trigger] spec_render_result(res) == text
            &&& (region.0 matches BoxKey::FourCC(t) && {
                let c = t.spec_code();
                let p = spec_child_payload(s, b);
                &&& (c == crate::known_boxes::STTS ==> crate::registry::stts_post(p, b.hdr.typ, res))
                &&& (c == crate::known_boxes::CTTS ==> crate::registry::ctts_post(p, b.hdr.typ, res))
                &&& (c == crate::known_boxes::STSC ==> crate::registry::stsc_post(p, b.hdr.typ, res))
                &&& (c == crate::known_boxes::STSZ ==> crate::registry::stsz_post(p, b.hdr.typ, res))
                &&& (c == crate::known_boxes::STZ2 ==> crate::registry::stz2_post(p, b.hdr.typ, res))
                &&& (c == crate::known_boxes::STSS ==> crate::registry::stss_post(p, b.hdr.typ, res))
                &&& (c == crate::known_boxes::STCO ==> crate::registry::stco_post(p, b.hdr.typ, res))
                &&& (c == crate::known_boxes::CO64 ==> crate::registry::co64_post(p, b.hdr.typ, res))
                &&& (c == crate::known_boxes::MDHD ==> crate::registry::mdhd_post(p, b.hdr.typ, res))
                &&& (c == crate::known_boxes::HDLR ==> crate::registry::hdlr_post(p, b.hdr.typ, res))
                &&& (c == crate::known_boxes::STSD ==> crate::registry::stsd_post(p, b.hdr.typ, res))
                &&& (c == crate::known_boxes::FTYP ==> crate::registry::ftyp_post(p, b.hdr.typ, res))
            })
        })
}

/// Decodes one box's payload for display: `None` when the box has no
/// payload or no decoder is registered for its key (absence of a decoder is
/// informational, never a failure); otherwise the rendering of the decode
/// outcome ([`decoded_rel`]) — a failed decode becomes a bracketed note, a
/// value rather than an abort.
pub fn decode_value(data: &Vec<u8>, b: &BoxRef, reg: &Registry) -> (r: Option<String>)
    requires
        subtree_ok(data@, *b),
    ensures
        match r {
            Some(text) => decoded_rel(data@, *b, text@),
            None => spec_payload_region(*b) is None || !spec_registered(
                spec_payload_region(*b)->Some_0.0,
            ),
        },
{
    // Materializes the data length as a machine word, so the ghost view's
    // length is known to fit one.
    let ghost dlen = data.len();
    let (key, _off, _len) = match payload_region(b, Ghost(data@)) {
        Option::Some(t) => t,
        Option::None => {
            return None;
        },
    };
    if !reg.is_registered(&key) {
        return None;
    }
    let p = crate::samples::child_payload(data, b);
    let res = match reg.decode(&key, &p, &b.hdr) {
        Option::Some(res) => res,
        Option::None => {
            return None;
        },
    };
    let ghost gres = res;
    let text: String = match res {
        Ok(BoxValue::Text(t)) => t,
        Ok(BoxValue::Bytes(bs)) => {
            let mut s = String::new();
            push_dec(&mut s, bs.len() as u64);
            s.append(" bytes");
            s
        },
        Ok(BoxValue::Structured(sd)) => summary(&sd),
        Err(e) => {
            let mut s = String::from_str("[decode error: ");
            s.append(kind_text(e.kind));
            s.append("]");
            s
        },
    };
    proof {
        assert(spec_render_result(gres) == text@);
        assert(decoded_rel(data@, *b, text@));
    }
    Some(text)
}

/// The 32 hexadecimal digits of a 16-byte extended type.
fn hex16(u: &[u8; 16]) -> (r: String)
    ensures
        r@ == hex_of_bytes(u@),
{
    let mut s = String::new();
    let mut i: usize = 0;
    while i < 16
        invariant
            i <= 16,
            s@ == hex_of_bytes(u@.subrange(0, i as int)),
        decreases 16 - i,
    {
        let ghost pre = u@.subrange(0, i as int);
        push_hex_byte(&mut s, u[i]);
        i = i + 1;
        proof {
            let cur = u@.subrange(0, i as int);
            assert(cur.drop_last() =~= pre);
        }
    }
    proof {
        assert(u@.subrange(0, 16) =~= u@);
    }
    s
}

/// Everything [`build_json_for_box`] promises of the record for one box:
/// exact extent, display strings, classification, version and flags for a
/// full box, a child record per child of a container, and (when decoding
/// was asked for) the rendering of the decode outcome.
pub open spec fn json_matches(s: Seq<u8>, b: BoxRef, dec: bool, j: JsonBox) -> bool
    decreases b, 0int, 0int,
{
    &&& j.offset == b.hdr.start
    &&& j.size == b.hdr.size
    &&& j.typ@ == fourcc_display(b.hdr.typ.0@)
    &&& match b.hdr.uuid {
        Option::Some(u) => j.uuid matches Some(us) && us@ == hex_of_bytes(u@),
        Option::None => j.uuid is None,
    }
    &&& j.full_name@ == crate::known_boxes::spec_full_name(b.hdr.typ.spec_code())
    &&& match b.kind {
        NodeKind::Container(cs) => {
            &&& j.kind@ == "container"@
            &&& j.version is None
            &&& j.flags is None
            &&& j.children matches Some(js) && jsons_match(s, cs@, dec, js@)
        },
        NodeKind::FullBox { version, flags, .. } => {
            &&& j.kind@ == "full"@
            &&& j.version == Some(version)
            &&& j.flags == Some(flags)
            &&& j.children is None
        },
        NodeKind::Leaf { .. } => {
            &&& j.kind@ == "leaf"@
            &&& j.version is None
            &&& j.flags is None
            &&& j.children is None
        },
        NodeKind::Unknown { .. } => {
            &&& j.kind@ == "unknown"@
            &&& j.version is None
            &&& j.flags is None
            &&& j.children is None
        },
    }
    &&& if dec {
        match j.decoded {
            Option::Some(t) => decoded_rel(s, b, t@),
            Option::None => spec_payload_region(b) is None || !spec_registered(
                spec_payload_region(b)->Some_0.0,
            ),
        }
    } else {
        j.decoded is None
    }
}

/// One record per box, each matching its box ([`json_matches`]), in order.
pub open spec fn jsons_match(s: Seq<u8>, bs: Seq<BoxRef>, dec: bool, js: Seq<JsonBox>) -> bool
    decreases bs, 1int, bs.len(),
{
    if bs.len() == 0 {
        js.len() == 0
    } else {
        &&& js.len() > 0
        &&& json_matches(s, bs[0], dec, js[0])
        &&& jsons_match(s, bs.drop_first(), dec, js.drop_first())
    }
}

proof fn lemma_jsons_push(
    s: Seq<u8>,
    bs: Seq<BoxRef>,
    dec: bool,
    js: Seq<JsonBox>,
    nb: BoxRef,
    nj: JsonBox,
)
    requires
        jsons_match(s, bs, dec, js),
        json_matches(s, nb, dec, nj),
    ensures
        jsons_match(s, bs.push(nb), dec, js.push(nj)),
    decreases bs.len(),
{
    reveal_with_fuel(jsons_match, 3);
    if bs.len() == 0 {
        assert(bs.push(nb).drop_first() =~= Seq::<BoxRef>::empty());
        assert(js.push(nj).drop_first() =~= Seq::<JsonBox>::empty());
        assert(bs.push(nb)[0] == nb);
        assert(js.push(nj)[0] == nj);
    } else {
        assert(bs.push(nb).drop_first() =~= bs.drop_first().push(nb));
        assert(js.push(nj).drop_first() =~= js.drop_first().push(nj));
        assert(bs.push(nb)[0] == bs[0]);
        assert(js.push(nj)[0] == js[0]);
        lemma_jsons_push(s, bs.drop_first(), dec, js.drop_first(), nb, nj);
    }
}

/// Flattens one parsed box into its report record: extent, type and name as
/// display text, version and flags for full boxes, children recursively,
/// and the decoded payload when `dec` is set.
pub fn build_json_for_box(data: &Vec<u8>, b: &BoxRef, dec: bool, reg: &Registry) -> (j: JsonBox)
    requires
        subtree_ok(data@, *b),
    ensures
        json_matches(data@, *b, dec, j),
    decreases *b,
{
    let typ = b.hdr.typ.display();
    let uuid: Option<String> = match &b.hdr.uuid {
        Option::Some(u) => Some(hex16(u)),
        Option::None => None,
    };
    let full_name = String::from_str(crate::known_boxes::full_name(&b.hdr.typ));
    proof {
        crate::parser::lemma_be_uint_subrange(
            data@,
            b.hdr.start as int + 4,
            b.hdr.start as int + 8,
            4,
        );
    }
    let decoded: Option<String> = if dec {
        decode_value(data, b, reg)
    } else {
        None
    };
    let (version, flags, kind, children): (
        Option<u8>,
        Option<u32>,
        String,
        Option<Vec<JsonBox>>,
    ) = match &b.kind {
        NodeKind::Container(cs) => {
            let n = cs.len();
            let mut js: Vec<JsonBox> = Vec::new();
            let mut i: usize = 0;
            while i < n
                invariant
                    i <= n,
                    n == cs@.len(),
                    b.kind matches NodeKind::Container(cs2) && cs2@ == cs@,
                    subtree_ok(data@, *b),
                    jsons_match(data@, cs@.subrange(0, i as int), dec, js@),
                decreases n - i,
            {
                proof {
                    lemma_child_subtree_ok(data@, *b, i as int);
                    assert(decreases_to!(*b => b.kind));
                    assert(decreases_to!(b.kind => cs@));
                    assert(decreases_to!(cs@ => cs@[i as int]));
                }
                let cj = build_json_for_box(data, &cs[i], dec, reg);
                proof {
                    lemma_jsons_push(
                        data@,
                        cs@.subrange(0, i as int),
                        dec,
                        js@,
                        cs@[i as int],
                        cj,
                    );
                    assert(cs@.subrange(0, i as int + 1) =~= cs@.subrange(0, i as int).push(
                        cs@[i as int],
                    ));
                }
                js.push(cj);
                i = i + 1;
            }
            proof {
                assert(cs@.subrange(0, n as int) =~= cs@);
            }
            (None, None, String::from_str("container"), Some(js))
        },
        NodeKind::FullBox { version, flags, .. } => (
            Some(*version),
            Some(*flags),
            String::from_str("full"),
            None,
        ),
        NodeKind::Leaf { .. } => (None, None, String::from_str("leaf"), None),
        NodeKind::Unknown { .. } => (None, None, String::from_str("unknown"), None),
    };
    JsonBox {
        offset: b.hdr.start,
        size: b.hdr.size,
        typ,
        uuid,
        version,
        flags,
        kind,
        full_name,
        decoded,
        children,
    }
}

/// There is a parse of the data whose records are exactly `out`.
pub open spec fn analysis_ok(s: Seq<u8>, dec: bool, out: Seq<JsonBox>) -> bool {
    exists|bs: Seq<BoxRef>|
        #[trigger] children_linked(s, bs, 0, s.len() as int) && jsons_match(s, bs, dec, out)
}

/// Parses the whole input and flattens it into report records, one per
/// top-level box with children nested, decoding payloads for display iff
/// `dec` is set.  The only error is a malformed box header.  Callers who
/// want the truncation warnings of the walk call [`parse_children`]
/// directly, which records them.
pub fn analyze(data: &Vec<u8>, dec: bool) -> (r: Result<Vec<JsonBox>, AnalysisError>)
    ensures
        r is Ok <==> crate::parser::region_parses(data@, 0, data.len() as int),
        r matches Ok(v) ==> analysis_ok(data@, dec, v@),
        r matches Err(e) ==> e is MalformedHeader,
{
    let len = data.len() as u64;
    let reg = default_registry();
    let mut warnings: Vec<u64> = Vec::new();
    let boxes = match parse_children(data, 0, len, &mut warnings) {
        Ok(bs) => bs,
        Err(e) => {
            return Err(e);
        },
    };
    let n = boxes.len();
    let mut out: Vec<JsonBox> = Vec::new();
    let mut i: usize = 0;
    while i < n
        invariant
            i <= n,
            n == boxes@.len(),
            len == data.len() as u64,
            children_linked(data@, boxes@, 0, len as int),
            jsons_match(data@, boxes@.subrange(0, i as int), dec, out@),
        decreases n - i,
    {
        proof {
            lemma_span_box_wf(data@, boxes@, 0, len as int, len as int, i as int);
        }
        let j = build_json_for_box(data, &boxes[i], dec, &reg);
        proof {
            lemma_jsons_push(data@, boxes@.subrange(0, i as int), dec, out@, boxes@[i as int], j);
            assert(boxes@.subrange(0, i as int + 1) =~= boxes@.subrange(0, i as int).push(
                boxes@[i as int],
            ));
        }
        out.push(j);
        i = i + 1;
    }
    proof {
        assert(boxes@.subrange(0, n as int) =~= boxes@);
        assert(analysis_ok(data@, dec, out@)) by {
            assert(children_linked(data@, boxes@, 0, data@.len() as int) && jsons_match(
                data@,
                boxes@,
                dec,
                out@,
            ));
        }
    }
    Ok(out)
}

} // verus!
