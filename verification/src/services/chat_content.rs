use vstd::prelude::*;
use vstd::string::StrSliceExecFns;
use vstd::string::StringSliceAdditionalSpecFns;
use vstd::bytes::{
    spec_u64_to_le_bytes, spec_u64_from_le_bytes, u64_to_le_bytes, u64_from_le_bytes,
    lemma_auto_spec_u64_to_from_le_bytes,
};
use vstd::utf8::encode_utf8;
use crate::error::ArchivistError;
use crate::services::chat_types::{ChatMessageContent, Attachment, ContentModel, AttachmentModel};
use crate::text::string_from_utf8;

verus! {

// ── The content frame ──────────────────────────────────────────
//
// A plaintext content object is framed to bytes before encryption and
// parsed back after decryption.  Every field is length-prefixed with a
// 64-bit little-endian count, so the framing is self-describing and
// unambiguous.

/// A length-prefixed byte field.
pub open spec fn chunk_bytes(b: Seq<u8>) -> Seq<u8> {
    spec_u64_to_le_bytes(b.len() as u64) + b
}

/// A length-prefixed string field, as its UTF-8 bytes.
pub open spec fn str_chunk(s: Seq<char>) -> Seq<u8> {
    chunk_bytes(encode_utf8(s))
}

/// The frame of one attachment.
pub open spec fn attachment_bytes(a: AttachmentModel) -> Seq<u8> {
    str_chunk(a.cid) + str_chunk(a.filename) + str_chunk(a.mime_type) + spec_u64_to_le_bytes(
        a.size_bytes,
    )
}

/// The frames of a list of attachments, in order.
pub open spec fn attachments_bytes(s: Seq<AttachmentModel>) -> Seq<u8>
    decreases s.len(),
{
    if s.len() == 0 {
        Seq::empty()
    } else {
        attachment_bytes(s[0]) + attachments_bytes(s.drop_first())
    }
}

/// The full frame of a content object: the text, the optional reply
/// reference behind a presence flag, and the attachment list behind a
/// count.
pub open spec fn content_bytes(c: ContentModel) -> Seq<u8> {
    str_chunk(c.text) + (match c.reply_to {
        None => seq![0u8],
        Some(r) => seq![1u8] + str_chunk(r),
    }) + spec_u64_to_le_bytes(c.attachments.len() as u64) + attachments_bytes(c.attachments)
}

proof fn lemma_attachments_snoc(s: Seq<AttachmentModel>, i: int)
    requires
        0 <= i < s.len(),
    ensures
        attachments_bytes(s.subrange(0, i + 1)) == attachments_bytes(s.subrange(0, i))
            + attachment_bytes(s[i]),
    decreases i,
{
    let pre = s.subrange(0, i + 1);
    if i == 0 {
        assert(pre.drop_first() =~= s.subrange(0, 0));
        assert(attachments_bytes(s.subrange(0, 0)) =~= Seq::<u8>::empty());
        assert(attachments_bytes(pre) =~= attachment_bytes(s[0]) + attachments_bytes(
            s.subrange(0, 0),
        ));
        assert(attachments_bytes(pre) =~= attachments_bytes(s.subrange(0, 0)) + attachment_bytes(
            s[0],
        ));
    } else {
        let t = s.drop_first();
        lemma_attachments_snoc(t, i - 1);
        assert(pre.drop_first() =~= t.subrange(0, i));
        assert(s.subrange(0, i).drop_first() =~= t.subrange(0, i - 1));
        assert(attachments_bytes(pre) == attachment_bytes(s[0]) + attachments_bytes(
            t.subrange(0, i),
        ));
        assert(attachments_bytes(s.subrange(0, i)) == attachment_bytes(s[0])
            + attachments_bytes(t.subrange(0, i - 1)));
        assert(t.subrange(0, i - 1 + 1) =~= t.subrange(0, i));
        assert(t[i - 1] == s[i]);
        assert(attachment_bytes(s[0]) + (attachments_bytes(t.subrange(0, i - 1))
            + attachment_bytes(s[i])) =~= (attachment_bytes(s[0]) + attachments_bytes(
            t.subrange(0, i - 1),
        )) + attachment_bytes(s[i]));
    }
}

// ── Encoding ───────────────────────────────────────────────────

/// Append a length-prefixed byte field.
fn push_chunk(out: &mut Vec<u8>, data: &[u8])
    ensures
        final(out)@ == old(out)@ + chunk_bytes(data@),
{
    let len_bytes = u64_to_le_bytes(data.len() as u64);
    let mut i: usize = 0;
    while i < len_bytes.len()
        invariant
            i <= len_bytes@.len(),
            len_bytes@ == spec_u64_to_le_bytes(data@.len() as u64),
            out@ =~= old(out)@ + len_bytes@.subrange(0, i as int),
        decreases len_bytes@.len() - i,
    {
        out.push(len_bytes[i]);
        i = i + 1;
    }
    let mut j: usize = 0;
    while j < data.len()
        invariant
            j <= data@.len(),
            len_bytes@ == spec_u64_to_le_bytes(data@.len() as u64),
            out@ =~= old(out)@ + len_bytes@ + data@.subrange(0, j as int),
        decreases data@.len() - j,
    {
        out.push(data[j]);
        j = j + 1;
    }
    proof {
        assert(out@ =~= old(out)@ + chunk_bytes(data@));
    }
}

/// Append the low-endian bytes of a 64-bit count.
fn push_u64(out: &mut Vec<u8>, v: u64)
    ensures
        final(out)@ == old(out)@ + spec_u64_to_le_bytes(v),
{
    let bytes = u64_to_le_bytes(v);
    let mut i: usize = 0;
    while i < bytes.len()
        invariant
            i <= bytes@.len(),
            bytes@ == spec_u64_to_le_bytes(v),
            out@ =~= old(out)@ + bytes@.subrange(0, i as int),
        decreases bytes@.len() - i,
    {
        out.push(bytes[i]);
        i = i + 1;
    }
    proof {
        assert(out@ =~= old(out)@ + spec_u64_to_le_bytes(v));
    }
}

/// Frame a content object to the bytes that get encrypted.
pub fn encode_content(c: &ChatMessageContent) -> (r: Vec<u8>)
    ensures
        r@ == content_bytes(c@),
{
    let mut out: Vec<u8> = Vec::new();
    let text_bytes = c.text.as_str().as_bytes_vec();
    push_chunk(&mut out, text_bytes.as_slice());
    match &c.reply_to {
        None => {
            out.push(0u8);
            proof {
                assert(out@ =~= str_chunk(c@.text) + seq![0u8]);
            }
        },
        Some(reply) => {
            out.push(1u8);
            let reply_bytes = reply.as_str().as_bytes_vec();
            proof {
                assert(out@ =~= str_chunk(c@.text) + seq![1u8]);
            }
            push_chunk(&mut out, reply_bytes.as_slice());
            proof {
                assert(out@ =~= str_chunk(c@.text) + (seq![1u8] + str_chunk(c@.reply_to->0)));
            }
        },
    }
    let ghost head = out@;
    push_u64(&mut out, c.attachments.len() as u64);
    let mut i: usize = 0;
    while i < c.attachments.len()
        invariant
            i <= c.attachments@.len(),
            c@.attachments.len() == c.attachments@.len(),
            forall|n: int| 0 <= n < c.attachments@.len() ==> c@.attachments[n] == c.attachments@[n]@,
            out@ =~= head + spec_u64_to_le_bytes(c.attachments@.len() as u64)
                + attachments_bytes(c@.attachments.subrange(0, i as int)),
        decreases c.attachments@.len() - i,
    {
        let ghost prefix = out@;
        let a = &c.attachments[i];
        let cid_bytes = a.cid.as_str().as_bytes_vec();
        push_chunk(&mut out, cid_bytes.as_slice());
        let fn_bytes = a.filename.as_str().as_bytes_vec();
        push_chunk(&mut out, fn_bytes.as_slice());
        let mime_bytes = a.mime_type.as_str().as_bytes_vec();
        push_chunk(&mut out, mime_bytes.as_slice());
        push_u64(&mut out, a.size_bytes);
        proof {
            assert(out@ =~= prefix + attachment_bytes(c@.attachments[i as int]));
            lemma_attachments_snoc(c@.attachments, i as int);
            assert(out@ =~= head + spec_u64_to_le_bytes(c.attachments@.len() as u64)
                + attachments_bytes(c@.attachments.subrange(0, i + 1)));
        }
        i = i + 1;
    }
    proof {
        assert(c@.attachments.subrange(0, c@.attachments.len() as int) =~= c@.attachments);
        assert(out@ =~= content_bytes(c@));
    }
    out
}

// ── Decoding ───────────────────────────────────────────────────

/// Read the 64-bit little-endian count at `pos`.
fn read_u64(b: &[u8], pos: usize) -> (r: Result<u64, ArchivistError>)
    ensures
        r is Ok <==> pos + 8 <= b@.len(),
        r is Ok ==> spec_u64_to_le_bytes(r->Ok_0) == b@.subrange(pos as int, pos + 8),
        r is Err ==> r->Err_0 is CryptoError,
{
    if b.len() < 8 || pos > b.len() - 8 {
        return Err(ArchivistError::CryptoError("Content frame truncated".to_string()));
    }
    let slice = vstd::slice::slice_subrange(b, pos, pos + 8);
    let v = u64_from_le_bytes(slice);
    proof {
        lemma_auto_spec_u64_to_from_le_bytes();
    }
    Ok(v)
}

/// Read the length-prefixed byte field at `pos`; returns the field and the
/// position just past it.
fn read_chunk(b: &[u8], pos: usize) -> (r: Result<(Vec<u8>, usize), ArchivistError>)
    ensures
        (pos + 8 <= b@.len() && pos + 8 + spec_u64_from_le_bytes(
            b@.subrange(pos as int, pos + 8),
        ) <= b@.len()) ==> r is Ok,
        r is Ok ==> {
            &&& pos <= r->Ok_0.1 <= b@.len()
            &&& b@.subrange(pos as int, r->Ok_0.1 as int) == chunk_bytes(r->Ok_0.0@)
            &&& r->Ok_0.1 == pos + 8 + spec_u64_from_le_bytes(b@.subrange(pos as int, pos + 8))
            &&& r->Ok_0.1 > pos
        },
        r is Err ==> r->Err_0 is CryptoError,
{
    let len64 = read_u64(b, pos)?;
    proof {
        lemma_auto_spec_u64_to_from_le_bytes();
        assert(spec_u64_from_le_bytes(b@.subrange(pos as int, pos + 8)) == len64);
    }
    if (len64 as u128) > (b.len() - (pos + 8)) as u128 {
        return Err(ArchivistError::CryptoError("Content frame truncated".to_string()));
    }
    let len = len64 as usize;
    let start = pos + 8;
    let end = start + len;
    let slice = vstd::slice::slice_subrange(b, start, end);
    let mut data: Vec<u8> = Vec::new();
    let mut i: usize = 0;
    while i < slice.len()
        invariant
            i <= slice@.len(),
            slice@ == b@.subrange(pos + 8, pos + 8 + len64),
            data@ =~= slice@.subrange(0, i as int),
        decreases slice@.len() - i,
    {
        data.push(slice[i]);
        i = i + 1;
    }
    proof {
        assert(data@ =~= slice@);
        assert(b@.subrange(pos as int, end as int) =~= b@.subrange(pos as int, pos + 8)
            + b@.subrange(pos + 8, end as int));
        assert(spec_u64_to_le_bytes(len64) == b@.subrange(pos as int, pos + 8));
        assert(data@.len() as u64 == len64);
        assert(b@.subrange(pos as int, end as int) =~= chunk_bytes(data@));
    }
    Ok((data, end))
}

/// Read the length-prefixed string field at `pos`.
fn read_str_chunk(b: &[u8], pos: usize) -> (r: Result<(String, usize), ArchivistError>)
    ensures
        ({
            let n = spec_u64_from_le_bytes(b@.subrange(pos as int, pos + 8));
            pos + 8 <= b@.len() && pos + 8 + n <= b@.len() && vstd::utf8::valid_utf8(
                b@.subrange(pos + 8, pos + 8 + n),
            )
        }) ==> r is Ok,
        r is Ok ==> {
            &&& pos < r->Ok_0.1 <= b@.len()
            &&& b@.subrange(pos as int, r->Ok_0.1 as int) == str_chunk(r->Ok_0.0@)
            &&& r->Ok_0.1 == pos + 8 + spec_u64_from_le_bytes(b@.subrange(pos as int, pos + 8))
        },
        r is Err ==> r->Err_0 is CryptoError,
{
    let (data, end) = read_chunk(b, pos)?;
    let ghost bytes = data@;
    proof {
        lemma_auto_spec_u64_to_from_le_bytes();
        assert(b@.subrange(pos as int, end as int) == chunk_bytes(bytes));
        assert(bytes =~= b@.subrange(pos as int, end as int).skip(8));
        assert(bytes =~= b@.subrange(pos + 8, end as int));
    }
    let s = string_from_utf8(data)?;
    proof {
        assert(encode_utf8(s@) == bytes);
    }
    Ok((s, end))
}


/// How an attachment-free content frame decomposes, position by position.
/// Only frames shorter than the 64-bit address space arise from real
/// buffers, which keeps the length prefixes faithful.
proof fn lemma_flat_frame(c: ContentModel, b: Seq<u8>)
    requires
        content_bytes(c) == b,
        c.attachments.len() == 0,
        b.len() < 0x1_0000_0000_0000_0000,
    ensures
        ({
            let e = encode_utf8(c.text);
            &&& e.len() + 17 <= b.len()
            &&& b.subrange(0, 8) == spec_u64_to_le_bytes(e.len() as u64)
            &&& spec_u64_from_le_bytes(b.subrange(0, 8)) == e.len()
            &&& b.subrange(8, 8 + e.len() as int) == e
            &&& vstd::utf8::valid_utf8(b.subrange(8, 8 + e.len() as int))
            &&& (c.reply_to is None ==> b.len() == 17 + e.len() && b[8 + e.len() as int] == 0u8
                && spec_u64_from_le_bytes(b.subrange(9 + e.len() as int, b.len() as int)) == 0)
            &&& (c.reply_to is Some ==> {
                let er = encode_utf8(c.reply_to->0);
                &&& b[8 + e.len() as int] == 1u8
                &&& b.len() == 25 + e.len() + er.len()
                &&& b.subrange(9 + e.len() as int, 17 + e.len() as int) == spec_u64_to_le_bytes(
                    er.len() as u64,
                )
                &&& spec_u64_from_le_bytes(b.subrange(9 + e.len() as int, 17 + e.len() as int))
                    == er.len()
                &&& b.subrange(17 + e.len() as int, 17 + e.len() + er.len() as int) == er
                &&& vstd::utf8::valid_utf8(b.subrange(
                    17 + e.len() as int,
                    17 + e.len() + er.len() as int,
                ))
                &&& spec_u64_from_le_bytes(b.subrange(
                    17 + e.len() + er.len() as int,
                    b.len() as int,
                )) == 0
            })
        }),
{
    broadcast use vstd::utf8::encode_utf8_valid_utf8;

    lemma_auto_spec_u64_to_from_le_bytes();
    let e = encode_utf8(c.text);
    assert(attachments_bytes(c.attachments) =~= Seq::<u8>::empty());
    let flagpart = match c.reply_to {
        None => seq![0u8],
        Some(r) => seq![1u8] + str_chunk(r),
    };
    assert(b =~= spec_u64_to_le_bytes(e.len() as u64) + e + flagpart + spec_u64_to_le_bytes(
        c.attachments.len() as u64,
    ));
    assert(spec_u64_to_le_bytes(e.len() as u64).len() == 8);
    assert(b.len() == 16 + e.len() + flagpart.len());
    assert(e.len() < 0x1_0000_0000_0000_0000);
    assert(spec_u64_from_le_bytes(spec_u64_to_le_bytes(e.len() as u64)) == e.len() as u64);
    assert(b.subrange(0, 8) =~= spec_u64_to_le_bytes(e.len() as u64));
    assert(b.subrange(8, 8 + e.len() as int) =~= e);
    assert(vstd::utf8::valid_utf8(e));
    assert(spec_u64_to_le_bytes(c.attachments.len() as u64) == spec_u64_to_le_bytes(0));
    match c.reply_to {
        None => {
            assert(flagpart =~= seq![0u8]);
            assert(b[8 + e.len() as int] == 0u8);
            assert(b.subrange(9 + e.len() as int, b.len() as int) =~= spec_u64_to_le_bytes(0u64));
            assert(spec_u64_from_le_bytes(spec_u64_to_le_bytes(0u64)) == 0u64);
        },
        Some(r) => {
            let er = encode_utf8(r);
            assert(flagpart =~= seq![1u8] + spec_u64_to_le_bytes(er.len() as u64) + er);
            assert(b.len() == 25 + e.len() + er.len());
            assert(er.len() < 0x1_0000_0000_0000_0000);
            assert(b[8 + e.len() as int] == 1u8);
            assert(b.subrange(9 + e.len() as int, 17 + e.len() as int) =~= spec_u64_to_le_bytes(
                er.len() as u64,
            ));
            assert(spec_u64_from_le_bytes(spec_u64_to_le_bytes(er.len() as u64))
                == er.len() as u64);
            assert(b.subrange(17 + e.len() as int, 17 + e.len() + er.len() as int) =~= er);
            assert(vstd::utf8::valid_utf8(er));
            assert(b.subrange(17 + e.len() + er.len() as int, b.len() as int)
                =~= spec_u64_to_le_bytes(0u64));
            assert(spec_u64_from_le_bytes(spec_u64_to_le_bytes(0u64)) == 0u64);
        },
    }
}

/// Parse a content frame.  Whatever is accepted is a genuine frame: the
/// returned content re-frames to exactly the input bytes.  Every
/// attachment-free frame is accepted.
pub fn decode_content(b: &[u8]) -> (r: Result<ChatMessageContent, ArchivistError>)
    ensures
        r is Ok ==> content_bytes(r->Ok_0@) == b@,
        forall|c: ContentModel|
            ((#[trigger] content_bytes(c)) == b@ && c.attachments.len() == 0) ==> r is Ok,
        r is Err ==> r->Err_0 is CryptoError,
{
    let blen: usize = b.len();
    let (text, pos1) = match read_str_chunk(b, 0) {
        Ok(p) => p,
        Err(e) => {
            proof {
                assert forall|c: ContentModel|
                    (#[trigger] content_bytes(c)) == b@ && c.attachments.len()
                        == 0 implies false by {
                    lemma_flat_frame(c, b@);
                }
            }
            return Err(e);
        },
    };
    proof {
        assert forall|c: ContentModel|
            (#[trigger] content_bytes(c)) == b@ && c.attachments.len() == 0 implies pos1 == 8
            + encode_utf8(c.text).len() && pos1 < b@.len() by {
            lemma_flat_frame(c, b@);
        }
    }
    if pos1 >= b.len() {
        proof {
            assert forall|c: ContentModel|
                (#[trigger] content_bytes(c)) == b@ && c.attachments.len() == 0 implies false by {
                lemma_flat_frame(c, b@);
            }
        }
        return Err(ArchivistError::CryptoError("Content frame truncated".to_string()));
    }
    let flag = b[pos1];
    let (reply_to, pos2): (Option<String>, usize) = if flag == 0 {
        (None, pos1 + 1)
    } else if flag == 1 {
        let pair = match read_str_chunk(b, pos1 + 1) {
            Ok(p) => p,
            Err(e) => {
                proof {
                    assert forall|c: ContentModel|
                        (#[trigger] content_bytes(c)) == b@ && c.attachments.len()
                            == 0 implies false by {
                        lemma_flat_frame(c, b@);
                    }
                }
                return Err(e);
            },
        };
        (Some(pair.0), pair.1)
    } else {
        proof {
            assert forall|c: ContentModel|
                (#[trigger] content_bytes(c)) == b@ && c.attachments.len() == 0 implies false by {
                lemma_flat_frame(c, b@);
            }
        }
        return Err(ArchivistError::CryptoError("Content frame malformed".to_string()));
    };
    proof {
        assert forall|c: ContentModel|
            (#[trigger] content_bytes(c)) == b@ && c.attachments.len() == 0 implies pos2 + 8
            == b@.len() && spec_u64_from_le_bytes(b@.subrange(pos2 as int, pos2 + 8)) == 0 by {
            lemma_flat_frame(c, b@);
        }
    }
    let count = match read_u64(b, pos2) {
        Ok(v) => v,
        Err(e) => {
            proof {
                assert forall|c: ContentModel|
                    (#[trigger] content_bytes(c)) == b@ && c.attachments.len()
                        == 0 implies false by {
                    lemma_flat_frame(c, b@);
                }
            }
            return Err(e);
        },
    };
    let pos3 = pos2 + 8;
    proof {
        lemma_auto_spec_u64_to_from_le_bytes();
        assert forall|c: ContentModel|
            (#[trigger] content_bytes(c)) == b@ && c.attachments.len() == 0 implies count
            == 0 by {
            lemma_flat_frame(c, b@);
        }
    }
    let mut attachments: Vec<Attachment> = Vec::new();
    let mut pos = pos3;
    let mut i: u64 = 0;
    while i < count
        invariant
            i <= count,
            attachments@.len() == i,
            b@.len() == blen,
            pos3 <= pos <= b@.len(),
            forall|c: ContentModel|
                ((#[trigger] content_bytes(c)) == b@ && c.attachments.len() == 0) ==> count
                    == 0,
            b@.subrange(pos3 as int, pos as int) =~= attachments_bytes(
                Seq::new(attachments@.len(), |n: int| attachments@[n]@),
            ),
        decreases count - i,
    {
        proof {
            assert forall|c: ContentModel|
                (#[trigger] content_bytes(c)) == b@ && c.attachments.len() == 0 implies false by {
                assert(count == 0);
                assert(i < count);
            }
        }
        let ghost atts_model = Seq::new(attachments@.len(), |n: int| attachments@[n]@);
        let ghost start = pos;
        let (cid, p1) = read_str_chunk(b, pos)?;
        let (filename, p2) = read_str_chunk(b, p1)?;
        let (mime_type, p3) = read_str_chunk(b, p2)?;
        let size_bytes = read_u64(b, p3)?;
        assert(p3 + 8 <= b@.len());
        let p4 = p3 + 8;
        let att = Attachment { cid, filename, mime_type, size_bytes };
        proof {
            assert(b@.subrange(start as int, p4 as int) =~= b@.subrange(
                start as int,
                p1 as int,
            ) + b@.subrange(p1 as int, p2 as int) + b@.subrange(p2 as int, p3 as int)
                + b@.subrange(p3 as int, p4 as int));
            assert(b@.subrange(start as int, p4 as int) =~= attachment_bytes(att@));
        }
        attachments.push(att);
        proof {
            let new_model = Seq::new(attachments@.len(), |n: int| attachments@[n]@);
            assert(new_model.subrange(0, new_model.len() - 1) =~= atts_model);
            assert(new_model[new_model.len() - 1] == att@);
            lemma_attachments_snoc(new_model, new_model.len() - 1);
            assert(new_model.subrange(0, new_model.len() as int) =~= new_model);
            assert(b@.subrange(pos3 as int, p4 as int) =~= b@.subrange(pos3 as int, start as int)
                + b@.subrange(start as int, p4 as int));
            assert(b@.subrange(pos3 as int, p4 as int) =~= attachments_bytes(new_model));
        }
        pos = p4;
        i = i + 1;
    }
    if pos != b.len() {
        proof {
            assert forall|c: ContentModel|
                (#[trigger] content_bytes(c)) == b@ && c.attachments.len() == 0 implies false by {
                lemma_flat_frame(c, b@);
            }
        }
        return Err(ArchivistError::CryptoError("Content frame has trailing bytes".to_string()));
    }
    let content = ChatMessageContent { text, reply_to, attachments };
    proof {
        let cm = content@;
        assert(cm.attachments =~= Seq::new(attachments@.len(), |n: int| attachments@[n]@));
        assert(b@.subrange(0, pos1 as int) == str_chunk(cm.text));
        if cm.reply_to is None {
            assert(b@.subrange(pos1 as int, pos2 as int) =~= seq![0u8]);
        } else {
            assert(b@.subrange(pos1 as int, pos1 + 1) =~= seq![1u8]);
            assert(b@.subrange(pos1 as int, pos2 as int) =~= seq![1u8] + str_chunk(
                cm.reply_to->0,
            ));
        }
        assert(spec_u64_to_le_bytes(count) == b@.subrange(pos2 as int, pos3 as int));
        assert(cm.attachments.len() as u64 == count);
        assert(b@ =~= b@.subrange(0, pos1 as int) + b@.subrange(pos1 as int, pos2 as int)
            + b@.subrange(pos2 as int, pos3 as int) + b@.subrange(pos3 as int, pos as int));
        assert(content_bytes(cm) =~= b@);
    }
    Ok(content)
}

// ── Unambiguity of the frame ───────────────────────────────────

/// Two length-prefixed fields followed by equal tails are equal: the frame
/// can be peeled from the front without ambiguity.
proof fn lemma_chunk_peel(p1: Seq<u8>, p2: Seq<u8>, r1: Seq<u8>, r2: Seq<u8>)
    requires
        chunk_bytes(p1) + r1 == chunk_bytes(p2) + r2,
        p1.len() <= u64::MAX,
        p2.len() <= u64::MAX,
    ensures
        p1 == p2,
        r1 == r2,
{
    lemma_auto_spec_u64_to_from_le_bytes();
    let b = chunk_bytes(p1) + r1;
    assert(spec_u64_to_le_bytes(p1.len() as u64).len() == 8);
    assert(spec_u64_to_le_bytes(p2.len() as u64).len() == 8);
    assert(b.subrange(0, 8) =~= spec_u64_to_le_bytes(p1.len() as u64));
    assert((chunk_bytes(p2) + r2).subrange(0, 8) =~= spec_u64_to_le_bytes(p2.len() as u64));
    assert(spec_u64_from_le_bytes(spec_u64_to_le_bytes(p1.len() as u64)) == p1.len() as u64);
    assert(spec_u64_from_le_bytes(spec_u64_to_le_bytes(p2.len() as u64)) == p2.len() as u64);
    assert(p1.len() == p2.len());
    assert(p1 =~= b.subrange(8, 8 + p1.len() as int));
    assert(p2 =~= (chunk_bytes(p2) + r2).subrange(8, 8 + p2.len() as int));
    assert(p1 =~= p2);
    assert(r1 =~= b.skip(8 + p1.len() as int));
    assert(r2 =~= (chunk_bytes(p2) + r2).skip(8 + p2.len() as int));
    assert(r1 =~= r2);
}

/// Whether a content's string fields fit the frame's 64-bit length
/// prefixes; every content an executable value can hold does.
pub open spec fn frameable(c: ContentModel) -> bool {
    &&& encode_utf8(c.text).len() <= u64::MAX
    &&& (c.reply_to is Some ==> encode_utf8(c.reply_to->0).len() <= u64::MAX)
}

/// The content frame is unambiguous for attachment-free contents: two such
/// contents with the same frame are the same content.  Together with the
/// decoder's guarantee that whatever it accepts re-frames to its input,
/// this pins the received message content to the sent one.
pub proof fn lemma_content_frame_unambiguous(c1: ContentModel, c2: ContentModel)
    requires
        content_bytes(c1) == content_bytes(c2),
        frameable(c1),
        frameable(c2),
        c1.attachments.len() == 0,
        c2.attachments.len() == 0,
    ensures
        c1.text == c2.text,
        c1.reply_to == c2.reply_to,
{
    broadcast use vstd::utf8::encode_utf8_decode_utf8;

    let tail1 = (match c1.reply_to {
        None => seq![0u8],
        Some(r) => seq![1u8] + str_chunk(r),
    }) + spec_u64_to_le_bytes(c1.attachments.len() as u64) + attachments_bytes(c1.attachments);
    let tail2 = (match c2.reply_to {
        None => seq![0u8],
        Some(r) => seq![1u8] + str_chunk(r),
    }) + spec_u64_to_le_bytes(c2.attachments.len() as u64) + attachments_bytes(c2.attachments);
    assert(content_bytes(c1) =~= str_chunk(c1.text) + tail1);
    assert(content_bytes(c2) =~= str_chunk(c2.text) + tail2);
    lemma_chunk_peel(encode_utf8(c1.text), encode_utf8(c2.text), tail1, tail2);
    assert(vstd::utf8::decode_utf8(encode_utf8(c1.text)) == c1.text);
    assert(vstd::utf8::decode_utf8(encode_utf8(c2.text)) == c2.text);
    assert(c1.text == c2.text);
    match c1.reply_to {
        None => {
            assert(tail1[0] == 0u8);
            if c1.reply_to != c2.reply_to {
                assert(tail2[0] == 1u8);
            }
        },
        Some(r1) => {
            assert(tail1[0] == 1u8);
            match c2.reply_to {
                None => {
                    assert(tail2[0] == 0u8);
                    assert(false);
                },
                Some(r2) => {
                    let after1 = spec_u64_to_le_bytes(c1.attachments.len() as u64)
                        + attachments_bytes(c1.attachments);
                    let after2 = spec_u64_to_le_bytes(c2.attachments.len() as u64)
                        + attachments_bytes(c2.attachments);
                    assert(tail1.drop_first() =~= str_chunk(r1) + after1);
                    assert(tail2.drop_first() =~= str_chunk(r2) + after2);
                    lemma_chunk_peel(encode_utf8(r1), encode_utf8(r2), after1, after2);
                    assert(vstd::utf8::decode_utf8(encode_utf8(r1)) == r1);
                    assert(vstd::utf8::decode_utf8(encode_utf8(r2)) == r2);
                    assert(r1 == r2);
                },
            }
        },
    }
}

} // verus!
