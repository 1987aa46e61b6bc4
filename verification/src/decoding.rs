//! BOM sniffing and decoding of token payload bytes.
//!
//! The tokenizer itself works on bytes; decoding a payload to text is done
//! on request, through `encoding_rs`.

use vstd::prelude::*;


verus! {

/// The encodings the byte-order-mark sniff can detect.
#[derive(Clone, Copy, Debug, PartialEq, Eq, Structural)]
pub enum EncodingKind {
    Utf8,
    Utf16Le,
    Utf16Be,
}

/// A decoder handle: the encoding under which payload bytes are decoded.
#[derive(Clone, Copy, Debug, PartialEq, Eq, Structural)]
pub struct Decoder {
    pub kind: EncodingKind,
}

/// The text that decoding the given bytes under the given encoding yields,
/// with malformed sequences replaced by U+FFFD. The result depends on the
/// encoding and the bytes alone.
pub uninterp spec fn decoded_of(kind: EncodingKind, bytes: Seq<u8>) -> Seq<char>;

/// Relies on `encoding_rs::Encoding::decode_without_bom_handling`: decodes
/// the bytes under the chosen encoding, replacing malformed sequences with
/// U+FFFD; the result is a function of the encoding and the bytes alone, and
/// empty input decodes to empty output.
#[verifier::external_body]
fn decode_with(kind: EncodingKind, bytes: &[u8]) -> (r: String)
    ensures
        r@ == decoded_of(kind, bytes@),
        bytes@.len() == 0 ==> r@.len() == 0,
{
    let enc = match kind {
        EncodingKind::Utf8 => encoding_rs::UTF_8,
        EncodingKind::Utf16Le => encoding_rs::UTF_16LE,
        EncodingKind::Utf16Be => encoding_rs::UTF_16BE,
    };
    enc.decode_without_bom_handling(bytes).0.into_owned()
}

impl Decoder {
    /// A decoder for UTF-8, the default when no BOM is found.
    pub fn utf8() -> (r: Decoder)
        ensures
            r.kind == EncodingKind::Utf8,
    {
        Decoder { kind: EncodingKind::Utf8 }
    }

    /// Decode the bytes under this decoder's encoding, replacing malformed
    /// sequences with U+FFFD.
    pub fn decode(&self, bytes: &[u8]) -> (r: String)
        ensures
            r@ == decoded_of(self.kind, bytes@),
    {
        decode_with(self.kind, bytes)
    }
}

/// The encoding a byte-order mark at the start of the input announces, with
/// the number of bytes the mark occupies: `EF BB BF` is UTF-8, `FF FE` is
/// UTF-16LE, `FE FF` is UTF-16BE; anything else is no mark.
pub open spec fn bom_of(b: Seq<u8>) -> (Option<EncodingKind>, int) {
    if b.len() >= 3 && b[0] == 0xef && b[1] == 0xbb && b[2] == 0xbf {
        (Some(EncodingKind::Utf8), 3)
    } else if b.len() >= 2 && b[0] == 0xff && b[1] == 0xfe {
        (Some(EncodingKind::Utf16Le), 2)
    } else if b.len() >= 2 && b[0] == 0xfe && b[1] == 0xff {
        (Some(EncodingKind::Utf16Be), 2)
    } else {
        (None, 0)
    }
}

/// Sniff a byte-order mark at the start of the input. Returns the detected
/// encoding, if any, and how many leading bytes the mark occupies.
pub fn sniff_bom(bytes: &[u8]) -> (r: (Option<EncodingKind>, usize))
    ensures
        (r.0, r.1 as int) == bom_of(bytes@),
{
    if bytes.len() >= 3 && bytes[0] == 0xef && bytes[1] == 0xbb && bytes[2] == 0xbf {
        (Some(EncodingKind::Utf8), 3)
    } else if bytes.len() >= 2 && bytes[0] == 0xff && bytes[1] == 0xfe {
        (Some(EncodingKind::Utf16Le), 2)
    } else if bytes.len() >= 2 && bytes[0] == 0xfe && bytes[1] == 0xff {
        (Some(EncodingKind::Utf16Be), 2)
    } else {
        (None, 0)
    }
}

impl crate::machine::Tokenizer {
    /// The decoder for payload bytes under the tokenizer's current encoding.
    pub fn decoder(&self) -> (r: Decoder)
        ensures
            r.kind == self.encoding,
    {
        Decoder { kind: self.encoding }
    }

    /// Strip a leading byte-order mark, adopting its encoding when none was
    /// captured yet, and decode the remaining bytes under the resulting
    /// encoding (malformed sequences replaced with U+FFFD).
    pub fn decode_without_bom(&mut self, bytes: &[u8]) -> (r: String)
        ensures
            final(self).state == old(self).state,
            final(self).eof == old(self).eof,
            ({
                let (k, n) = bom_of(bytes@);
                if old(self).is_encoding_set {
                    &&& final(self).encoding == old(self).encoding
                    &&& final(self).is_encoding_set
                    &&& r@ == decoded_of(old(self).encoding, bytes@)
                } else {
                    let enc = match k {
                        Some(kk) => kk,
                        None => old(self).encoding,
                    };
                    &&& final(self).encoding == enc
                    &&& final(self).is_encoding_set == (k is Some)
                    &&& r@ == decoded_of(enc, bytes@.subrange(n, bytes@.len() as int))
                }
            }),
    {
        if self.is_encoding_set {
            let d = self.decoder();
            return d.decode(bytes);
        }
        let (k, n) = sniff_bom(bytes);
        match k {
            Some(kind) => {
                self.encoding = kind;
                self.is_encoding_set = true;
            }
            None => (),
        }
        let rest = vstd::slice::slice_subrange(bytes, n, bytes.len());
        let d = self.decoder();
        d.decode(rest)
    }
}

} // verus!
