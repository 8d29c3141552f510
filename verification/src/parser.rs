//! The box-structure parser: one header reader and the recursive walk that
//! builds the tree.
//!
//! The spec side pins the on-disk header layout ([`spec_box_size`],
//! [`spec_hdr_size`], [`spec_header_valid`]) and the shape of a well-formed
//! parse ([`box_wf`], [`children_span`]): siblings tile their region exactly
//! (each box starts where the previous one ends), every box ends within its
//! region after clamping, and a `size == 0` box extends to the region end.

use vstd::prelude::*;
use crate::boxes::{BoxHeader, BoxRef, FourCC, NodeKind};
use crate::bytes::{be_uint, be_u24, be_u32, be_u64, lemma_be_uint_bounds, pow256};
use crate::errors::AnalysisError;
use crate::known_boxes::{Category, spec_category, spec_is_hybrid};

verus! {

/// The four bytes of the `uuid` box type.
pub open spec fn uuid_code_bytes() -> Seq<u8> {
    seq![0x75u8, 0x75u8, 0x69u8, 0x64u8]
}

/// The 32-bit size field of the box header at `pos`.
pub open spec fn spec_size32(s: Seq<u8>, pos: int) -> int {
    be_uint(s, pos, 4)
}

/// Whether the box at `pos` is a `uuid` (user-extension) box.
pub open spec fn spec_is_uuid(s: Seq<u8>, pos: int) -> bool {
    s.subrange(pos + 4, pos + 8) == uuid_code_bytes()
}

/// The header length of the box at `pos`: 8 bytes, plus 8 for a 64-bit
/// `largesize`, plus 16 for a `uuid` extended type.
pub open spec fn spec_hdr_size(s: Seq<u8>, pos: int) -> int {
    8 + (if spec_size32(s, pos) == 1 {
        8int
    } else {
        0int
    }) + (if spec_is_uuid(s, pos) {
        16int
    } else {
        0int
    })
}

/// The declared total size of the box at `pos`: the 32-bit field, or the
/// 64-bit `largesize` when the field is 1.  Zero means "to the region end".
pub open spec fn spec_box_size(s: Seq<u8>, pos: int) -> int {
    if spec_size32(s, pos) == 1 {
        be_uint(s, pos + 8, 8)
    } else {
        spec_size32(s, pos)
    }
}

/// Whether the box header at `pos` can be read and is plausible: the header
/// lies within the data, the size field is not in the impossible range
/// `2 ..= 7`, and a non-zero declared size is at least the header size.
pub open spec fn spec_header_valid(s: Seq<u8>, pos: int) -> bool {
    &&& 0 <= pos
    &&& pos + 8 <= s.len()
    &&& !(2 <= spec_size32(s, pos) < 8)
    &&& pos + spec_hdr_size(s, pos) <= s.len()
    &&& (spec_box_size(s, pos) > 0 ==> spec_box_size(s, pos) >= spec_hdr_size(s, pos))
}

/// The declared size of the box at `pos`, clamped to a region ending at
/// `end`: zero stays the to-region-end sentinel, and an extent that would
/// cross `end` is cut at `end`.
pub open spec fn spec_clamped_size(s: Seq<u8>, pos: int, end: int) -> int {
    let bsize = spec_box_size(s, pos);
    if bsize == 0 {
        0
    } else if pos + bsize <= end {
        bsize
    } else {
        end - pos
    }
}

/// Whether the declared extent of the box at `pos` crosses the end of its
/// region, so that the parse clamps it and records a truncation warning.
pub open spec fn spec_truncated(s: Seq<u8>, pos: int, end: int) -> bool {
    spec_box_size(s, pos) != 0 && pos + spec_box_size(s, pos) > end
}

/// Whether the header fields of `b` are exactly those read from `s` at
/// `b.hdr.start`, with the size clamped to a region ending at `end`.
pub open spec fn hdr_wf(s: Seq<u8>, b: BoxRef, end: int) -> bool {
    let pos = b.hdr.start as int;
    &&& spec_header_valid(s, pos)
    &&& b.hdr.header_size == spec_hdr_size(s, pos)
    &&& b.hdr.typ.0@ == s.subrange(pos + 4, pos + 8)
    &&& b.hdr.size == spec_clamped_size(s, pos, end)
    &&& (spec_is_uuid(s, pos) <==> b.hdr.uuid is Some)
    &&& (b.hdr.uuid matches Some(u) ==> u@ == s.subrange(
        pos + spec_hdr_size(s, pos) - 16,
        pos + spec_hdr_size(s, pos),
    ))
}

/// Well-formedness of one parsed box within a region ending at `end`.
///
/// The header matches the bytes; the box's own end `e` never exceeds `end`;
/// and the node kind is the one the catalog assigns, with a container's
/// children tiling its payload, a full box's version and flags read from the
/// first payload bytes, and a box too short for its class degraded to a leaf.
pub open spec fn box_wf(s: Seq<u8>, b: BoxRef, end: int) -> bool
    decreases b, 0int, 0int,
{
    let pos = b.hdr.start as int;
    let hs = spec_hdr_size(s, pos);
    let code = be_uint(s, pos + 4, 4);
    let e = if b.hdr.size == 0 {
        end
    } else {
        pos + b.hdr.size
    };
    &&& hdr_wf(s, b, end)
    &&& pos < end <= s.len()
    &&& e <= end
    &&& match b.kind {
        NodeKind::Container(cs) => {
            let content = pos + hs + (if spec_is_hybrid(code) {
                4int
            } else {
                0int
            });
            &&& spec_category(code) == Category::Container
            &&& !spec_is_uuid(s, pos)
            &&& !spec_truncated(s, pos, end)
            &&& content <= e
            &&& children_span(s, cs@, content, e, e)
        },
        NodeKind::FullBox { version, flags, data_offset, data_len } => {
            &&& spec_category(code) == Category::FullBox
            &&& !spec_is_uuid(s, pos)
            &&& !spec_truncated(s, pos, end)
            &&& pos + hs + 4 <= e
            &&& version == s[pos + hs]
            &&& flags == be_uint(s, pos + hs + 1, 3)
            &&& data_offset == pos + hs + 4
            &&& data_len == e - (pos + hs + 4)
        },
        NodeKind::Leaf { data_offset, data_len } => {
            &&& !spec_is_uuid(s, pos)
            &&& (spec_category(code) == Category::Leaf || spec_truncated(s, pos, end) || e < pos
                + hs + (if spec_category(code) == Category::FullBox || spec_is_hybrid(code) {
                4int
            } else {
                0int
            }))
            &&& data_offset == pos + hs
            &&& data_len == (if e >= pos + hs {
                e - (pos + hs)
            } else {
                0int
            })
        },
        NodeKind::Unknown { data_offset, data_len } => {
            &&& spec_is_uuid(s, pos)
            &&& data_offset == pos + hs
            &&& data_len == (if e >= pos + hs {
                e - (pos + hs)
            } else {
                0int
            })
        },
    }
}

/// Whether the region `[pos, end)` parses without a malformed header: every
/// box header read along the walk is valid, recursively inside containers.
/// This is exactly the success condition of [`parse_children`].
pub open spec fn region_parses(s: Seq<u8>, pos: int, end: int) -> bool
    decreases end - pos, 1int,
{
    if pos >= end {
        true
    } else if !spec_header_valid(s, pos) {
        false
    } else {
        let e = if spec_box_size(s, pos) == 0 {
            end
        } else if pos + spec_box_size(s, pos) <= end {
            pos + spec_box_size(s, pos)
        } else {
            end
        };
        &&& box_content_parses(s, pos, end)
        &&& (pos < e ==> region_parses(s, e, end))
    }
}

/// Whether the inside of the box at `pos` parses: only a non-truncated,
/// non-`uuid` container with room for its child region constrains anything.
pub open spec fn box_content_parses(s: Seq<u8>, pos: int, end: int) -> bool
    decreases end - pos, 0int,
{
    let code = be_uint(s, pos + 4, 4);
    let hs = spec_hdr_size(s, pos);
    let e = if spec_box_size(s, pos) == 0 {
        end
    } else if pos + spec_box_size(s, pos) <= end {
        pos + spec_box_size(s, pos)
    } else {
        end
    };
    let content = pos + hs + (if spec_is_hybrid(code) {
        4int
    } else {
        0int
    });
    (!spec_truncated(s, pos, end) && !spec_is_uuid(s, pos) && spec_category(code)
        == Category::Container && content < e) ==> region_parses(s, content, e)
}

/// The boxes `bs` tile `[pos, mid)` exactly: each starts where the previous
/// one ends, each is well-formed in the region ending at `end`, and the last
/// one ends at `mid`.
pub open spec fn children_span(s: Seq<u8>, bs: Seq<BoxRef>, pos: int, mid: int, end: int) -> bool
    decreases bs, 1int, bs.len(),
{
    if bs.len() == 0 {
        pos == mid
    } else {
        &&& bs[0].hdr.start == pos
        &&& box_wf(s, bs[0], end)
        &&& children_span(s, bs.drop_first(), bs[0].hdr.spec_end(end), mid, end)
    }
}

/// Siblings parsed from a region `[pos, end)` tile it exactly.
pub open spec fn children_linked(s: Seq<u8>, bs: Seq<BoxRef>, pos: int, end: int) -> bool {
    children_span(s, bs, pos, end, end)
}

proof fn lemma_prefix_refl(a: Seq<u64>)
    ensures
        a.is_prefix_of(a),
{
    assert(a.subrange(0, a.len() as int) =~= a);
}

proof fn lemma_prefix_push(a: Seq<u64>, b: Seq<u64>, x: u64)
    requires
        a.is_prefix_of(b),
    ensures
        a.is_prefix_of(b.push(x)),
{
    assert(b.push(x).subrange(0, a.len() as int) =~= a);
}

proof fn lemma_prefix_trans(a: Seq<u64>, b: Seq<u64>, c: Seq<u64>)
    requires
        a.is_prefix_of(b),
        b.is_prefix_of(c),
    ensures
        a.is_prefix_of(c),
{
    assert(c.subrange(0, a.len() as int) =~= a);
}

/// A tiling of `[pos, mid)` extends by one well-formed box starting at `mid`.
proof fn lemma_children_span_push(s: Seq<u8>, bs: Seq<BoxRef>, b: BoxRef, pos: int, mid: int, end: int)
    requires
        children_span(s, bs, pos, mid, end),
        b.hdr.start == mid,
        box_wf(s, b, end),
    ensures
        children_span(s, bs.push(b), pos, b.hdr.spec_end(end), end),
    decreases bs.len(),
{
    reveal_with_fuel(children_span, 3);
    if bs.len() == 0 {
        assert(bs.push(b).drop_first() =~= Seq::<BoxRef>::empty());
        assert(bs.push(b)[0] == b);
        assert(children_span(
            s,
            Seq::<BoxRef>::empty(),
            b.hdr.spec_end(end),
            b.hdr.spec_end(end),
            end,
        ));
    } else {
        lemma_children_span_push(s, bs.drop_first(), b, bs[0].hdr.spec_end(end), mid, end);
        assert(bs.push(b).drop_first() =~= bs.drop_first().push(b));
        assert(bs.push(b)[0] == bs[0]);
    }
}

/// Every box of a tiling is well-formed in the region the tiling was made
/// for.
pub proof fn lemma_span_box_wf(s: Seq<u8>, bs: Seq<BoxRef>, pos: int, mid: int, end: int, i: int)
    requires
        children_span(s, bs, pos, mid, end),
        0 <= i < bs.len(),
    ensures
        box_wf(s, bs[i], end),
    decreases i,
{
    if i > 0 {
        lemma_span_box_wf(s, bs.drop_first(), bs[0].hdr.spec_end(end), mid, end, i - 1);
        assert(bs.drop_first()[i - 1] == bs[i]);
    }
}

/// Law: siblings tile their region.  Each box of a tiling starts exactly
/// where the previous one ends — for a box with a non-zero (clamped) size,
/// at `start + size` — and every box ends at or before the region end.
pub proof fn lemma_siblings_tile(s: Seq<u8>, bs: Seq<BoxRef>, pos: int, mid: int, end: int, i: int)
    requires
        children_span(s, bs, pos, mid, end),
        0 <= i < bs.len(),
    ensures
        i + 1 < bs.len() ==> bs[i + 1].hdr.start == bs[i].hdr.spec_end(end),
        i + 1 < bs.len() && bs[i].hdr.size != 0 ==> bs[i + 1].hdr.start == bs[i].hdr.start
            + bs[i].hdr.size,
        bs[i].hdr.spec_end(end) <= end,
    decreases i,
{
    reveal_with_fuel(children_span, 3);
    lemma_span_box_wf(s, bs, pos, mid, end, i);
    if i == 0 {
        if bs.len() > 1 {
            assert(bs.drop_first()[0] == bs[1]);
        }
    } else {
        lemma_siblings_tile(s, bs.drop_first(), bs[0].hdr.spec_end(end), mid, end, i - 1);
        assert(bs.drop_first()[i - 1] == bs[i]);
        if i + 1 < bs.len() {
            assert(bs.drop_first()[i] == bs[i + 1]);
        }
    }
}

/// A big-endian field read from a subrange equals the one read in place.
pub proof fn lemma_be_uint_subrange(s: Seq<u8>, a: int, b: int, n: int)
    requires
        0 <= a,
        a + n <= b <= s.len(),
        0 <= n,
    ensures
        be_uint(s.subrange(a, b), 0, n) == be_uint(s, a, n),
    decreases n,
{
    if n > 0 {
        lemma_be_uint_subrange(s, a, b, n - 1);
    }
}

/// Reads the 16-byte extended type at `pos`.
fn read16(data: &Vec<u8>, pos: usize) -> (r: [u8; 16])
    requires
        pos + 16 <= data.len(),
    ensures
        r@ == data@.subrange(pos as int, pos as int + 16),
{
    let r = [
        data[pos],
        data[pos + 1],
        data[pos + 2],
        data[pos + 3],
        data[pos + 4],
        data[pos + 5],
        data[pos + 6],
        data[pos + 7],
        data[pos + 8],
        data[pos + 9],
        data[pos + 10],
        data[pos + 11],
        data[pos + 12],
        data[pos + 13],
        data[pos + 14],
        data[pos + 15],
    ];
    proof {
        assert(r@ =~= data@.subrange(pos as int, pos as int + 16));
    }
    r
}

/// Reads the box header at `pos`.
///
/// Returns `MalformedHeader` exactly when the header is invalid: it runs
/// past the end of the data, its size field is in the impossible range
/// `2 ..= 7`, or its non-zero declared size is smaller than the header
/// itself.  On success every returned field is the value read from the
/// bytes; the declared size is not yet clamped to any region.
pub fn read_box_header(data: &Vec<u8>, pos: u64) -> (r: Result<BoxHeader, AnalysisError>)
    ensures
        r is Ok <==> spec_header_valid(data@, pos as int),
        (r matches Ok(h) ==> {
            let p = pos as int;
            &&& h.start == pos
            &&& h.size == spec_box_size(data@, p)
            &&& h.header_size == spec_hdr_size(data@, p)
            &&& h.typ.0@ == data@.subrange(p + 4, p + 8)
            &&& (spec_is_uuid(data@, p) <==> h.uuid is Some)
            &&& (h.uuid matches Some(u) ==> u@ == data@.subrange(
                p + spec_hdr_size(data@, p) - 16,
                p + spec_hdr_size(data@, p),
            ))
        }),
        r matches Err(e) ==> e == (AnalysisError::MalformedHeader { at: pos }),
{
    let len = data.len();
    if pos > u64::MAX - 8 || pos + 8 > len as u64 {
        return Err(AnalysisError::MalformedHeader { at: pos });
    }
    let p = pos as usize;
    let size32 = be_u32(data, p);
    let typ = FourCC([data[p + 4], data[p + 5], data[p + 6], data[p + 7]]);
    proof {
        assert(typ.0@ =~= data@.subrange(p + 4, p as int + 8));
        lemma_be_uint_bounds(data@, p as int, 4);
        reveal_with_fuel(pow256, 9);
    }
    if size32 >= 2 && size32 < 8 {
        return Err(AnalysisError::MalformedHeader { at: pos });
    }
    let is_uuid = typ.is(&[0x75u8, 0x75u8, 0x69u8, 0x64u8]);
    proof {
        assert((seq![0x75u8, 0x75u8, 0x69u8, 0x64u8]) =~= [0x75u8, 0x75u8, 0x69u8, 0x64u8]@);
        assert(is_uuid == spec_is_uuid(data@, pos as int));
    }
    let mut hs: usize = 8;
    let mut size: u64 = size32 as u64;
    if size32 == 1 {
        if len - p < 16 {
            return Err(AnalysisError::MalformedHeader { at: pos });
        }
        size = be_u64(data, p + 8);
        hs = 16;
        proof {
            lemma_be_uint_bounds(data@, p + 8, 8);
        }
    }
    let uuid: Option<[u8; 16]> = if is_uuid {
        if len - p < 16 || len - p - 16 < hs {
            return Err(AnalysisError::MalformedHeader { at: pos });
        }
        let u = read16(data, p + hs);
        hs = hs + 16;
        Some(u)
    } else {
        None
    };
    if size > 0 && size < hs as u64 {
        return Err(AnalysisError::MalformedHeader { at: pos });
    }
    Ok(BoxHeader { typ, uuid, start: pos, size, header_size: hs as u64 })
}

/// Parses the boxes of the region `[start, end)` of `data`, depth first and
/// in file order.
///
/// On success the returned siblings tile the region exactly
/// ([`children_linked`]): each box starts where the previous one ends, a
/// `size == 0` box extends to the region end, and a box whose declared
/// extent crosses the region end is clamped to it, recorded in `warnings`
/// by its start offset, and not descended into.  The only error is a
/// malformed header, which aborts the parse of the whole region.
pub fn parse_children(
    data: &Vec<u8>,
    start: u64,
    end: u64,
    warnings: &mut Vec<u64>,
) -> (r: Result<Vec<BoxRef>, AnalysisError>)
    requires
        start <= end <= data.len(),
    ensures
        r is Ok <==> region_parses(data@, start as int, end as int),
        r matches Ok(bs) ==> children_linked(data@, bs@, start as int, end as int),
        r matches Err(e) ==> e is MalformedHeader,
        old(warnings)@.is_prefix_of(final(warnings)@),
    decreases end - start,
{
    let ghost w0 = warnings@;
    proof {
        lemma_prefix_refl(w0);
    }
    let mut boxes: Vec<BoxRef> = Vec::new();
    let mut pos: u64 = start;
    while pos < end
        invariant
            start <= pos <= end,
            end <= data.len(),
            children_span(data@, boxes@, start as int, pos as int, end as int),
            region_parses(data@, start as int, end as int) <==> region_parses(
                data@,
                pos as int,
                end as int,
            ),
            w0 == old(warnings)@,
            w0.is_prefix_of(warnings@),
        decreases end - pos,
    {
        let h0 = match read_box_header(data, pos) {
            Ok(h) => h,
            Err(e) => {
                proof {
                    assert(!region_parses(data@, pos as int, end as int));
                }
                return Err(e);
            },
        };
        let hs = h0.header_size;
        // Clamp the declared extent to the region.
        let mut truncated = false;
        let e: u64 = if h0.size == 0 {
            end
        } else {
            match pos.checked_add(h0.size) {
                Some(raw_end) if raw_end <= end => raw_end,
                _ => {
                    truncated = true;
                    end
                },
            }
        };
        proof {
            assert(truncated == spec_truncated(data@, pos as int, end as int));
        }
        let hdr = BoxHeader {
            size: if h0.size == 0 {
                0
            } else {
                e - pos
            },
            ..h0
        };
        let cat = crate::known_boxes::category(&h0.typ);
        proof {
            lemma_be_uint_subrange(data@, pos as int + 4, pos as int + 8, 4);
        }
        if truncated {
            let ghost w1 = warnings@;
            warnings.push(pos);
            proof {
                lemma_prefix_push(w0, w1, pos);
            }
        }
        let kind: NodeKind = if h0.uuid.is_some() {
            let off = pos + hs;
            NodeKind::Unknown {
                data_offset: off,
                data_len: if e >= off {
                    e - off
                } else {
                    0
                },
            }
        } else if truncated {
            let off = pos + hs;
            NodeKind::Leaf {
                data_offset: off,
                data_len: if e >= off {
                    e - off
                } else {
                    0
                },
            }
        } else if matches!(cat, Category::Container) {
            let hybrid = crate::known_boxes::is_hybrid_container(&h0.typ);
            let base = pos + hs;
            let content_start: Option<u64> = if !hybrid {
                if base <= e {
                    Some(base)
                } else {
                    None
                }
            } else {
                if e >= 4 && base <= e - 4 {
                    Some(base + 4)
                } else {
                    None
                }
            };
            if let Some(content) = content_start {
                let ghost w1 = warnings@;
                let children = match parse_children(data, content, e, warnings) {
                    Ok(cs) => cs,
                    Err(err) => {
                        proof {
                            lemma_prefix_trans(w0, w1, warnings@);
                            // An empty child region always parses, so the
                            // failed region is non-empty, and this box's
                            // content fails to parse.
                            assert(content < e);
                            assert(!box_content_parses(data@, pos as int, end as int));
                            assert(!region_parses(data@, pos as int, end as int));
                        }
                        return Err(err);
                    },
                };
                proof {
                    lemma_prefix_trans(w0, w1, warnings@);
                }
                NodeKind::Container(children)
            } else {
                let off = pos + hs;
                NodeKind::Leaf {
                    data_offset: off,
                    data_len: if e >= off {
                        e - off
                    } else {
                        0
                    },
                }
            }
        } else if matches!(cat, Category::FullBox) {
            if e >= 4 && pos + hs <= e - 4 {
                let vp = (pos + hs) as usize;
                let version = data[vp];
                let flags = be_u24(data, vp + 1);
                NodeKind::FullBox {
                    version,
                    flags,
                    data_offset: pos + hs + 4,
                    data_len: e - (pos + hs + 4),
                }
            } else {
                let off = pos + hs;
                NodeKind::Leaf {
                    data_offset: off,
                    data_len: if e >= off {
                        e - off
                    } else {
                        0
                    },
                }
            }
        } else {
            let off = pos + hs;
            NodeKind::Leaf {
                data_offset: off,
                data_len: if e >= off {
                    e - off
                } else {
                    0
                },
            }
        };
        let b = BoxRef { hdr, kind };
        proof {
            assert(box_content_parses(data@, pos as int, end as int));
            assert(pos < e);
            assert(region_parses(data@, pos as int, end as int) <==> region_parses(
                data@,
                e as int,
                end as int,
            ));
            assert(box_wf(data@, b, end as int));
            assert(b.hdr.spec_end(end as int) == e as int);
            lemma_children_span_push(
                data@,
                boxes@,
                b,
                start as int,
                pos as int,
                end as int,
            );
        }
        boxes.push(b);
        pos = e;
    }
    Ok(boxes)
}

} // verus!
