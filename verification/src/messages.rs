//! The server-to-client wire codec.  Every frame is a tag byte, a
//! big-endian 32-bit length that counts itself, and the body; the
//! exact bytes of each message kind are pinned by the spec functions
//! here.

use vstd::prelude::*;
use vstd::utf8::encode_utf8;
use vstd::string::StringSliceAdditionalSpecFns;
use crate::results::QueryError;
use crate::types::PostgreSqlType;

verus! {

/// Big-endian bytes of a 32-bit value.
pub open spec fn be32(n: u32) -> Seq<u8> {
    seq![
        ((n >> 24) & 0xff) as u8,
        ((n >> 16) & 0xff) as u8,
        ((n >> 8) & 0xff) as u8,
        (n & 0xff) as u8,
    ]
}

/// Big-endian bytes of a 16-bit value.
pub open spec fn be16(n: u16) -> Seq<u8> {
    seq![((n >> 8) & 0xff) as u8, (n & 0xff) as u8]
}

/// The one-byte notice refusing an SSL request.
pub open spec fn enc_notice() -> Seq<u8> {
    seq![78u8]
}

/// AuthenticationOk: tag `R`, length 8, code 0.
pub open spec fn enc_authentication_ok() -> Seq<u8> {
    seq![82u8, 0u8, 0u8, 0u8, 8u8, 0u8, 0u8, 0u8, 0u8]
}

/// AuthenticationCleartextPassword: tag `R`, length 8, code 3.
pub open spec fn enc_authentication_cleartext() -> Seq<u8> {
    seq![82u8, 0u8, 0u8, 0u8, 8u8, 0u8, 0u8, 0u8, 3u8]
}

/// ReadyForQuery: tag `Z`, length 5, idle marker `I`.
pub open spec fn enc_ready_for_query() -> Seq<u8> {
    seq![90u8, 0u8, 0u8, 0u8, 5u8, 73u8]
}

/// Wire form of the data cells from position `i` on: each cell its
/// length then its bytes.
pub open spec fn enc_cells(vals: Seq<Seq<u8>>, i: int) -> Seq<u8>
    decreases vals.len() - i,
{
    if i < 0 || i >= vals.len() {
        Seq::empty()
    } else {
        be32(vals[i].len() as u32) + vals[i] + enc_cells(vals, i + 1)
    }
}

/// Byte count of [`enc_cells`] from position `i` on.
pub open spec fn cells_wire_len(vals: Seq<Seq<u8>>, i: int) -> int
    decreases vals.len() - i,
{
    if i < 0 || i >= vals.len() {
        0
    } else {
        4 + vals[i].len() + cells_wire_len(vals, i + 1)
    }
}

/// The cell encoding is as long as its byte count says.
pub proof fn lemma_cells_wire_len(vals: Seq<Seq<u8>>, i: int)
    ensures
        enc_cells(vals, i).len() == cells_wire_len(vals, i),
        cells_wire_len(vals, i) >= 0,
    decreases vals.len() - i,
{
    if 0 <= i < vals.len() {
        lemma_cells_wire_len(vals, i + 1);
    }
}

/// DataRow: tag `D`, length, cell count, then each cell length-led.
pub open spec fn enc_data_row(vals: Seq<Seq<u8>>) -> Seq<u8> {
    seq![68u8] + be32((6 + cells_wire_len(vals, 0)) as u32) + be16(vals.len() as u16)
        + enc_cells(vals, 0)
}

/// Wire form of the column descriptions from position `i` on: name,
/// NUL, table id 0, attribute 0, type id, type size, modifier -1,
/// text format 0.
pub open spec fn enc_cols(cols: Seq<(Seq<u8>, PostgreSqlType)>, i: int) -> Seq<u8>
    decreases cols.len() - i,
{
    if i < 0 || i >= cols.len() {
        Seq::empty()
    } else {
        cols[i].0 + seq![0u8] + be32(0) + be16(0) + be32(cols[i].1.spec_oid()) + be16(
            cols[i].1.spec_len() as u16,
        ) + be32(0xffffffffu32) + be16(0) + enc_cols(cols, i + 1)
    }
}

/// Byte count of [`enc_cols`] from position `i` on.
pub open spec fn cols_wire_len(cols: Seq<(Seq<u8>, PostgreSqlType)>, i: int) -> int
    decreases cols.len() - i,
{
    if i < 0 || i >= cols.len() {
        0
    } else {
        cols[i].0.len() + 19 + cols_wire_len(cols, i + 1)
    }
}

/// The column encoding is as long as its byte count says.
pub proof fn lemma_cols_wire_len(cols: Seq<(Seq<u8>, PostgreSqlType)>, i: int)
    ensures
        enc_cols(cols, i).len() == cols_wire_len(cols, i),
        cols_wire_len(cols, i) >= 0,
    decreases cols.len() - i,
{
    if 0 <= i < cols.len() {
        lemma_cols_wire_len(cols, i + 1);
    }
}

/// RowDescription: tag `T`, length, column count, then each column.
pub open spec fn enc_row_description(cols: Seq<(Seq<u8>, PostgreSqlType)>) -> Seq<u8> {
    seq![84u8] + be32((6 + cols_wire_len(cols, 0)) as u32) + be16(cols.len() as u16) + enc_cols(
        cols,
        0,
    )
}

/// CommandComplete: tag `C`, length, NUL-terminated tag text.
pub open spec fn enc_command_complete(tag: Seq<u8>) -> Seq<u8> {
    seq![67u8] + be32((5 + tag.len()) as u32) + tag + seq![0u8]
}

/// ErrorResponse: tag `E`, length, then severity, code and message
/// fields, each NUL-terminated, closed by one more NUL.
pub open spec fn enc_error_response(sev: Seq<u8>, code: Seq<u8>, msg: Seq<u8>) -> Seq<u8> {
    seq![69u8] + be32((11 + sev.len() + code.len() + msg.len()) as u32) + seq![83u8] + sev + seq![
        0u8,
    ] + seq![67u8] + code + seq![0u8] + seq![77u8] + msg + seq![0u8] + seq![0u8]
}

/// A server-to-client message.
pub enum Message {
    AuthenticationOk,
    AuthenticationCleartextPassword,
    /// The one-byte `N` reply to an SSL request the server refuses.
    Notice,
    ReadyForQuery,
    /// One description per projected column: name and wire type.
    RowDescription(Vec<(String, PostgreSqlType)>),
    /// One textual cell per projected column.
    DataRow(Vec<String>),
    CommandComplete(String),
    ErrorResponse(QueryError),
}

/// The shift-and-mask bytes of [`be32`], as plain division and
/// remainder, so that fixed frames evaluate.
pub proof fn lemma_be32_parts(n: u32)
    ensures
        ((n >> 24) & 0xff) == n / 0x1000000 % 0x100,
        ((n >> 16) & 0xff) == n / 0x10000 % 0x100,
        ((n >> 8) & 0xff) == n / 0x100 % 0x100,
        (n & 0xff) == n % 0x100,
{
    assert(((n >> 24) & 0xff) == n / 0x1000000 % 0x100 && ((n >> 16) & 0xff) == n / 0x10000
        % 0x100 && ((n >> 8) & 0xff) == n / 0x100 % 0x100 && (n & 0xff) == n % 0x100)
        by (bit_vector);
}

fn write_be32(out: &mut Vec<u8>, n: u32)
    ensures
        final(out)@ =~= old(out)@ + be32(n),
{
    proof {
        assert(((n >> 24) & 0xff) < 256 && ((n >> 16) & 0xff) < 256 && ((n >> 8) & 0xff) < 256
            && (n & 0xff) < 256) by (bit_vector);
    }
    out.push(((n >> 24) & 0xff) as u8);
    out.push(((n >> 16) & 0xff) as u8);
    out.push(((n >> 8) & 0xff) as u8);
    out.push((n & 0xff) as u8);
}

fn write_be16(out: &mut Vec<u8>, n: u16)
    ensures
        final(out)@ =~= old(out)@ + be16(n),
{
    proof {
        assert(((n >> 8) & 0xff) < 256 && (n & 0xff) < 256) by (bit_vector);
    }
    out.push(((n >> 8) & 0xff) as u8);
    out.push((n & 0xff) as u8);
}

fn write_str_bytes(out: &mut Vec<u8>, s: &str)
    ensures
        final(out)@ =~= old(out)@ + encode_utf8(s@),
{
    let bytes = s.as_bytes();
    out.extend_from_slice(bytes);
}

/// The bytes of each string, in order.
pub open spec fn strings_bytes(vals: Seq<String>) -> Seq<Seq<u8>> {
    vals.map_values(|s: String| encode_utf8(s@))
}

/// The name bytes and wire type of each column description, in order.
pub open spec fn descs_bytes(cols: Seq<(String, PostgreSqlType)>) -> Seq<
    (Seq<u8>, PostgreSqlType),
> {
    cols.map_values(|c: (String, PostgreSqlType)| (encode_utf8(c.0@), c.1))
}

impl Message {
    /// The exact frame bytes of this message, per the encoding spec
    /// functions.  The length bounds keep every length field inside
    /// its signed 32- or 16-bit wire slot.
    pub fn as_vec(&self) -> (r: Vec<u8>)
        requires
            self matches Message::DataRow(vals) ==> vals@.len() <= 65535 && 6 + cells_wire_len(
                strings_bytes(vals@),
                0,
            ) <= 0x7fffffff,
            self matches Message::RowDescription(cols) ==> cols@.len() <= 65535 && 6
                + cols_wire_len(descs_bytes(cols@), 0) <= 0x7fffffff,
            self matches Message::CommandComplete(tag) ==> 5 + encode_utf8(tag@).len()
                <= 0x7fffffff,
            self matches Message::ErrorResponse(qe) ==> 11 + encode_utf8(qe.severity@).len()
                + encode_utf8(qe.code@).len() + encode_utf8(qe.message@).len() <= 0x7fffffff,
        ensures
            self matches Message::AuthenticationOk ==> r@ =~= enc_authentication_ok(),
            self matches Message::AuthenticationCleartextPassword ==> r@
                =~= enc_authentication_cleartext(),
            self matches Message::Notice ==> r@ =~= enc_notice(),
            self matches Message::ReadyForQuery ==> r@ =~= enc_ready_for_query(),
            self matches Message::DataRow(vals) ==> r@ =~= enc_data_row(strings_bytes(vals@)),
            self matches Message::RowDescription(cols) ==> r@ =~= enc_row_description(
                descs_bytes(cols@),
            ),
            self matches Message::CommandComplete(tag) ==> r@ =~= enc_command_complete(
                encode_utf8(tag@),
            ),
            self matches Message::ErrorResponse(qe) ==> r@ =~= enc_error_response(
                encode_utf8(qe.severity@),
                encode_utf8(qe.code@),
                encode_utf8(qe.message@),
            ),
    {
        match self {
            Message::AuthenticationOk => {
                let mut out: Vec<u8> = Vec::new();
                out.push(82);
                write_be32(&mut out, 8);
                write_be32(&mut out, 0);
                proof {
                    lemma_be32_parts(8);
                    lemma_be32_parts(0);
                    assert(out@ =~= enc_authentication_ok());
                }
                out
            },
            Message::AuthenticationCleartextPassword => {
                let mut out: Vec<u8> = Vec::new();
                out.push(82);
                write_be32(&mut out, 8);
                write_be32(&mut out, 3);
                proof {
                    lemma_be32_parts(8);
                    lemma_be32_parts(3);
                    assert(out@ =~= enc_authentication_cleartext());
                }
                out
            },
            Message::Notice => {
                let mut out: Vec<u8> = Vec::new();
                out.push(78);
                proof {
                    assert(out@ =~= enc_notice());
                }
                out
            },
            Message::ReadyForQuery => {
                let mut out: Vec<u8> = Vec::new();
                out.push(90);
                write_be32(&mut out, 5);
                out.push(73);
                proof {
                    lemma_be32_parts(5);
                    assert(out@ =~= enc_ready_for_query());
                }
                out
            },
            Message::DataRow(vals) => {
                let ghost vb = strings_bytes(vals@);
                let mut body: Vec<u8> = Vec::new();
                let mut i: usize = 0;
                while i < vals.len()
                    invariant
                        0 <= i <= vals@.len(),
                        vb == strings_bytes(vals@),
                        6 + cells_wire_len(vb, 0) <= 0x7fffffff,
                        enc_cells(vb, 0) =~= body@ + enc_cells(vb, i as int),
                        body@.len() == cells_wire_len(vb, 0) - cells_wire_len(vb, i as int),
                    decreases vals@.len() - i,
                {
                    let s = &vals[i];
                    proof {
                        assert(vb[i as int] == encode_utf8(s@));
                        lemma_cells_wire_len(vb, 0);
                        lemma_cells_wire_len(vb, i as int);
                        lemma_cells_wire_len(vb, i as int + 1);
                    }
                    let n = s.as_str().len();
                    write_be32(&mut body, n as u32);
                    write_str_bytes(&mut body, s.as_str());
                    proof {
                        assert(enc_cells(vb, i as int) =~= be32(vb[i as int].len() as u32) + vb[
                            i as int
                        ] + enc_cells(vb, i as int + 1));
                        assert(enc_cells(vb, 0) =~= body@ + enc_cells(vb, i as int + 1));
                    }
                    i = i + 1;
                }
                proof {
                    assert(enc_cells(vb, vals@.len() as int) =~= Seq::empty());
                    assert(enc_cells(vb, 0) =~= body@);
                    lemma_cells_wire_len(vb, 0);
                }
                let mut out: Vec<u8> = Vec::new();
                out.push(68);
                let total: u32 = (6 + body.len() as u64) as u32;
                write_be32(&mut out, total);
                write_be16(&mut out, vals.len() as u16);
                let mut body = body;
                out.append(&mut body);
                proof {
                    assert(out@ =~= enc_data_row(vb));
                }
                out
            },
            Message::RowDescription(cols) => {
                let ghost cb = descs_bytes(cols@);
                let mut body: Vec<u8> = Vec::new();
                let mut i: usize = 0;
                while i < cols.len()
                    invariant
                        0 <= i <= cols@.len(),
                        cb == descs_bytes(cols@),
                        6 + cols_wire_len(cb, 0) <= 0x7fffffff,
                        enc_cols(cb, 0) =~= body@ + enc_cols(cb, i as int),
                        body@.len() == cols_wire_len(cb, 0) - cols_wire_len(cb, i as int),
                    decreases cols@.len() - i,
                {
                    let (name, t) = &cols[i];
                    proof {
                        assert(cb[i as int] == (encode_utf8(name@), *t));
                        lemma_cols_wire_len(cb, 0);
                        lemma_cols_wire_len(cb, i as int);
                        lemma_cols_wire_len(cb, i as int + 1);
                    }
                    write_str_bytes(&mut body, name.as_str());
                    body.push(0);
                    write_be32(&mut body, 0);
                    write_be16(&mut body, 0);
                    write_be32(&mut body, t.pg_oid());
                    write_be16(&mut body, #[verifier::truncate] (t.pg_len() as u16));
                    write_be32(&mut body, 0xffffffff);
                    write_be16(&mut body, 0);
                    proof {
                        assert(enc_cols(cb, i as int) =~= cb[i as int].0 + seq![0u8] + be32(0)
                            + be16(0) + be32(cb[i as int].1.spec_oid()) + be16(
                            #[verifier::truncate] (cb[i as int].1.spec_len() as u16),
                        ) + be32(0xffffffffu32) + be16(0) + enc_cols(cb, i as int + 1));
                        assert(enc_cols(cb, 0) =~= body@ + enc_cols(cb, i as int + 1));
                    }
                    i = i + 1;
                }
                proof {
                    assert(enc_cols(cb, cols@.len() as int) =~= Seq::empty());
                    assert(enc_cols(cb, 0) =~= body@);
                    lemma_cols_wire_len(cb, 0);
                }
                let mut out: Vec<u8> = Vec::new();
                out.push(84);
                let total: u32 = (6 + body.len() as u64) as u32;
                write_be32(&mut out, total);
                write_be16(&mut out, cols.len() as u16);
                let mut body = body;
                out.append(&mut body);
                proof {
                    assert(out@ =~= enc_row_description(cb));
                }
                out
            },
            Message::CommandComplete(tag) => {
                let mut out: Vec<u8> = Vec::new();
                out.push(67);
                let n = tag.as_str().len();
                write_be32(&mut out, (5 + n as u64) as u32);
                write_str_bytes(&mut out, tag.as_str());
                out.push(0);
                proof {
                    assert(out@ =~= enc_command_complete(encode_utf8(tag@)));
                }
                out
            },
            Message::ErrorResponse(qe) => {
                let mut out: Vec<u8> = Vec::new();
                out.push(69);
                let ns = qe.severity.as_str().len();
                let nc = qe.code.as_str().len();
                let nm = qe.message.as_str().len();
                let total: u64 = 11 + ns as u64 + nc as u64 + nm as u64;
                write_be32(&mut out, total as u32);
                out.push(83);
                write_str_bytes(&mut out, qe.severity.as_str());
                out.push(0);
                out.push(67);
                write_str_bytes(&mut out, qe.code.as_str());
                out.push(0);
                out.push(77);
                write_str_bytes(&mut out, qe.message.as_str());
                out.push(0);
                out.push(0);
                proof {
                    assert(out@ =~= enc_error_response(
                        encode_utf8(qe.severity@),
                        encode_utf8(qe.code@),
                        encode_utf8(qe.message@),
                    ));
                }
                out
            },
        }
    }
}

} // verus!
