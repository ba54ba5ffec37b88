use vstd::prelude::*;
use vstd::slice::slice_to_vec;
use vstd::utf8::encode_utf8;

use crate::args::Args;
use crate::chunk::{payload_text, Chunk, ChunkView};
use crate::chunk_type::{text_bytes, valid_type_text, ChunkType};
use crate::error::PngError;
use crate::png::{first_match, matching, parse_png, png_bytes, without, Png};

verus! {

/// What running a command leaves for the caller to write out.
#[derive(Debug)]
pub enum CmdOutput {
    /// New file bytes, and the path they go to.
    Write { path: String, bytes: Vec<u8> },
    /// For each chunk asked for, its text or why it has none; empty when no chunk has the type.
    Decoded(Vec<Result<String, PngError>>),
    /// The payloads that are text, in file order.
    Printed(Vec<String>),
}

/// The texts that decoding asks for: of the first chunk of type `t`, or of all of them.
pub open spec fn decode_spec(cs: Seq<ChunkView>, t: Seq<char>, all: bool) -> Seq<Option<Seq<char>>> {
    if all {
        matching(cs, t).map_values(|c: ChunkView| payload_text(c.1))
    } else {
        match first_match(cs, t) {
            Some(i) => seq![payload_text(cs[i].1)],
            None => seq![],
        }
    }
}

/// Each result is the text expected at its place, or `NotText` where none is.
pub open spec fn texts_agree(v: Seq<Result<String, PngError>>, d: Seq<Option<Seq<char>>>) -> bool {
    &&& v.len() == d.len()
    &&& forall|i: int|
        0 <= i < v.len() ==> match #[trigger] v[i] {
            Ok(s) => d[i] == Some(s@),
            Err(e) => d[i] is None && e == PngError::NotText,
        }
}

/// The texts among the payloads, in order.
pub open spec fn texts(cs: Seq<ChunkView>) -> Seq<Seq<char>>
    decreases cs.len(),
{
    if cs.len() == 0 {
        seq![]
    } else {
        match payload_text(cs.last().1) {
            Some(t) => texts(cs.drop_last()).push(t),
            None => texts(cs.drop_last()),
        }
    }
}

/// The file after a chunk of type `t` holding `msg` is added at the end.
pub open spec fn encode_spec(b: Seq<u8>, t: Seq<char>, msg: Seq<char>) -> Result<Seq<u8>, PngError> {
    match parse_png(b) {
        Err(e) => Err(e),
        Ok(cs) => if !valid_type_text(t) {
            Err(PngError::InvalidFormat)
        } else if encode_utf8(msg).len() > u32::MAX {
            Err(PngError::PayloadTooLarge)
        } else {
            Ok(png_bytes(cs.push((text_bytes(t), encode_utf8(msg)))))
        },
    }
}

/// The file after the first chunk of type `t`, or all of them, are taken out.
pub open spec fn remove_spec(b: Seq<u8>, t: Seq<char>, all: bool) -> Result<Seq<u8>, PngError> {
    match parse_png(b) {
        Err(e) => Err(e),
        Ok(cs) => if all {
            Ok(png_bytes(without(cs, t)))
        } else {
            match first_match(cs, t) {
                Some(i) => Ok(png_bytes(cs.remove(i))),
                None => Err(PngError::NotFound),
            }
        },
    }
}

/// `r` holds the bytes of `expected` to be written to `path`, or its error.
pub open spec fn write_agrees(
    r: Result<CmdOutput, PngError>,
    expected: Result<Seq<u8>, PngError>,
    path: Seq<char>,
) -> bool {
    match expected {
        Ok(out) => match r {
            Ok(CmdOutput::Write { path: p, bytes }) => bytes@ == out && p@ == path,
            _ => false,
        },
        Err(e) => r == Err::<CmdOutput, PngError>(e),
    }
}

/// The texts of the first chunk of type `ctype`, or of every such chunk with `all`.
pub fn decode_messages(bytes: &[u8], ctype: &str, all: bool) -> (r: Result<
    Vec<Result<String, PngError>>,
    PngError,
>)
    ensures
        match parse_png(bytes@) {
            Ok(cs) => r matches Ok(v) && texts_agree(v@, decode_spec(cs, ctype@, all)),
            Err(e) => r matches Err(e2) && e2 == e,
        },
{
    let png = match Png::try_from(bytes) {
        Ok(p) => p,
        Err(e) => return Err(e),
    };
    let ghost cs = png@;
    let mut out: Vec<Result<String, PngError>> = Vec::new();
    if all {
        match png.chunks_by_type(ctype) {
            None => {},
            Some(found) => {
                let ghost d = decode_spec(cs, ctype@, all);
                let mut i: usize = 0;
                while i < found.len()
                    invariant
                        i <= found@.len(),
                        d == matching(cs, ctype@).map_values(|c: ChunkView| payload_text(c.1)),
                        found@.map_values(|c: &Chunk| c@) == matching(cs, ctype@),
                        out@.len() == i,
                        forall|j: int|
                            0 <= j < i ==> match #[trigger] out@[j] {
                                Ok(s) => d[j] == Some(s@),
                                Err(e) => d[j] is None && e == PngError::NotText,
                            },
                    decreases found@.len() - i,
                {
                    let c = found[i];
                    assert(c@ == matching(cs, ctype@)[i as int]);
                    out.push(c.data_as_string());
                    i = i + 1;
                }
            },
        }
    } else {
        match png.chunk_by_type(ctype) {
            None => {},
            Some(c) => {
                out.push(c.data_as_string());
            },
        }
    }
    Ok(out)
}

/// The file with a new last chunk of type `ctype` that holds `message`.
pub fn encode_message(bytes: &[u8], ctype: &str, message: &str) -> (r: Result<Vec<u8>, PngError>)
    ensures
        match encode_spec(bytes@, ctype@, message@) {
            Ok(out) => r matches Ok(v) && v@ == out,
            Err(e) => r matches Err(e2) && e2 == e,
        },
{
    let mut png = match Png::try_from(bytes) {
        Ok(p) => p,
        Err(e) => return Err(e),
    };
    let ty = match ChunkType::from_text(ctype) {
        Ok(t) => t,
        Err(e) => return Err(e),
    };
    let data = slice_to_vec(message.as_bytes());
    if data.len() > 0xffff_ffffusize {
        return Err(PngError::PayloadTooLarge);
    }
    png.append_chunk(Chunk::new(ty, data));
    Ok(png.as_bytes())
}

/// The file without the first chunk of type `ctype`, or without all of them.
pub fn remove_messages(bytes: &[u8], ctype: &str, all: bool) -> (r: Result<Vec<u8>, PngError>)
    ensures
        match remove_spec(bytes@, ctype@, all) {
            Ok(out) => r matches Ok(v) && v@ == out,
            Err(e) => r matches Err(e2) && e2 == e,
        },
{
    let mut png = match Png::try_from(bytes) {
        Ok(p) => p,
        Err(e) => return Err(e),
    };
    if all {
        png.remove_all_chunks(ctype);
    } else {
        match png.remove_chunk(ctype) {
            Ok(_) => {},
            Err(e) => return Err(e),
        }
    }
    Ok(png.as_bytes())
}

/// Every payload of the file that is text, in file order.
pub fn print_messages(bytes: &[u8]) -> (r: Result<Vec<String>, PngError>)
    ensures
        match parse_png(bytes@) {
            Ok(cs) => r matches Ok(v) && v@.map_values(|s: String| s@) == texts(cs),
            Err(e) => r matches Err(e2) && e2 == e,
        },
{
    let png = match Png::try_from(bytes) {
        Ok(p) => p,
        Err(e) => return Err(e),
    };
    let chunks = png.chunks();
    let ghost cs = png@;
    let mut out: Vec<String> = Vec::new();
    let mut i: usize = 0;
    while i < chunks.len()
        invariant
            i <= chunks@.len(),
            chunks@.map_values(|c: Chunk| c@) == cs,
            out@.map_values(|s: String| s@) == texts(cs.take(i as int)),
        decreases chunks@.len() - i,
    {
        let c = &chunks[i];
        proof {
            assert(c@ == cs[i as int]);
            assert(cs.take(i + 1).drop_last() =~= cs.take(i as int));
            assert(cs.take(i + 1).last() == c@);
        }
        match c.data_as_string() {
            Ok(s) => {
                out.push(s);
                assert(out@.map_values(|s: String| s@) =~= texts(cs.take(i as int)).push(
                    payload_text(c@.1)->Some_0,
                ));
            },
            Err(_) => {},
        }
        i = i + 1;
    }
    assert(cs.take(i as int) =~= cs);
    Ok(out)
}

/// Runs a command on the bytes of the file that it names.
pub fn run_cmd(cli: &Args, file_bytes: &[u8]) -> (r: Result<CmdOutput, PngError>)
    ensures
        match cli {
            Args::Encode { file, ctype, message, output } => write_agrees(
                r,
                encode_spec(file_bytes@, ctype@, message@),
                match output {
                    Some(o) => o@,
                    None => file@,
                },
            ),
            Args::Remove { file, ctype, all } => write_agrees(
                r,
                remove_spec(file_bytes@, ctype@, *all),
                file@,
            ),
            Args::Decode { file: _, ctype, all } => match parse_png(file_bytes@) {
                Ok(cs) => r matches Ok(CmdOutput::Decoded(v)) && texts_agree(
                    v@,
                    decode_spec(cs, ctype@, *all),
                ),
                Err(e) => r == Err::<CmdOutput, PngError>(e),
            },
            Args::Print { file: _ } => match parse_png(file_bytes@) {
                Ok(cs) => r matches Ok(CmdOutput::Printed(v)) && v@.map_values(|s: String| s@)
                    == texts(cs),
                Err(e) => r == Err::<CmdOutput, PngError>(e),
            },
        },
{
    match cli {
        Args::Encode { file, ctype, message, output } => {
            let path = match output {
                Some(o) => o.clone(),
                None => file.clone(),
            };
            match encode_message(file_bytes, ctype.as_str(), message.as_str()) {
                Ok(bytes) => Ok(CmdOutput::Write { path, bytes }),
                Err(e) => Err(e),
            }
        },
        Args::Remove { file, ctype, all } => {
            match remove_messages(file_bytes, ctype.as_str(), *all) {
                Ok(bytes) => Ok(CmdOutput::Write { path: file.clone(), bytes }),
                Err(e) => Err(e),
            }
        },
        Args::Decode { file: _, ctype, all } => {
            match decode_messages(file_bytes, ctype.as_str(), *all) {
                Ok(v) => Ok(CmdOutput::Decoded(v)),
                Err(e) => Err(e),
            }
        },
        Args::Print { file: _ } => {
            match print_messages(file_bytes) {
                Ok(v) => Ok(CmdOutput::Printed(v)),
                Err(e) => Err(e),
            }
        },
    }
}

} // verus!
