//! The parts of running a user script that need no process: where its
//! output goes and how much of its output is kept.

use vstd::prelude::*;
use vstd::utf8::{decode_utf8, encode_utf8, encode_utf8_valid_utf8, encode_utf8_decode_utf8,
    is_char_boundary, is_char_boundary_iff_not_is_continuation_byte};
use vstd::string::StringSliceAdditionalSpecFns;
use crate::text::{not_char, remove_char};

verus! {

/// Calls `str::len`: the length of a string in bytes, the length of its
/// UTF-8 encoding. vstd's own specification of `str::len` casts that length
/// to `usize` and bounds it nowhere; std documents that no allocation, and
/// so no string, exceeds `isize::MAX` bytes, which is what this contract
/// adds.
#[verifier::external_body]
fn byte_len(s: &str) -> (n: usize)
    ensures
        n == s.spec_bytes().len(),
{
    s.len()
}

/// Most bytes of a script's output that are kept.
pub const MAX_OUTPUT_BYTES: usize = 2000;

/// What a script run gave.
#[derive(Debug)]
pub struct ScriptResult {
    pub success: bool,
    pub stdout: String,
    pub stderr: String,
    pub returncode: i32,
}

/// A date parameter without its hyphens, as UTF-8 bytes.
pub open spec fn param_bytes(param: Seq<char>) -> Seq<u8> {
    encode_utf8(param.filter(not_char('-')))
}

/// The output folder named by a date parameter: with its hyphens removed,
/// eight bytes become "YYYY-MM-DD", six bytes "YYYY-MM"; any other
/// parameter names the folder as it is.
pub open spec fn param_folder(param: Seq<char>) -> Seq<char> {
    let b = param_bytes(param);
    if b.len() == 8 {
        decode_utf8(b.subrange(0, 4)) + "-"@ + decode_utf8(b.subrange(4, 6)) + "-"@ + decode_utf8(
            b.subrange(6, 8),
        )
    } else if b.len() == 6 {
        decode_utf8(b.subrange(0, 4)) + "-"@ + decode_utf8(b.subrange(4, 6))
    } else {
        param
    }
}

/// The cut points of a parameter fall between characters (else cutting it
/// panics).
pub open spec fn param_cuttable(param: Seq<char>) -> bool {
    let b = param_bytes(param);
    &&& b.len() == 8 ==> is_char_boundary(b, 4) && is_char_boundary(b, 6)
    &&& b.len() == 6 ==> is_char_boundary(b, 4)
}

pub(crate) proof fn lemma_inner_boundary(b: Seq<u8>, start: int, end: int, k: int)
    requires
        0 <= start < k < end <= b.len(),
        vstd::utf8::valid_utf8(b),
        vstd::utf8::valid_utf8(b.subrange(start, end)),
        is_char_boundary(b, k),
    ensures
        is_char_boundary(b.subrange(start, end), k - start),
{
    is_char_boundary_iff_not_is_continuation_byte(b, k);
    is_char_boundary_iff_not_is_continuation_byte(b.subrange(start, end), k - start);
}

/// Names the output folder of a date parameter.
pub fn parse_param_to_folder(param: &str) -> (res: String)
    requires
        param_cuttable(param@),
    ensures
        res@ == param_folder(param@),
{
    let clean = remove_char(param, '-');
    let c = clean.as_str();
    let len = byte_len(c);
    proof {
        encode_utf8_valid_utf8(clean@);
        encode_utf8_decode_utf8(clean@);
    }
    let ghost b = c.spec_bytes();
    assert(c@ == param@.filter(not_char('-')));
    assert(b == param_bytes(param@));
    if len == 8 || len == 6 {
        let (first, rest) = c.split_at(4);
        proof {
            encode_utf8_valid_utf8(first@);
            encode_utf8_decode_utf8(first@);
            encode_utf8_valid_utf8(rest@);
            encode_utf8_decode_utf8(rest@);
            assert(first.spec_bytes() =~= b.subrange(0, 4));
        }
        let mut out = String::from_str(first);
        out.append("-");
        if len == 8 {
            proof {
                lemma_inner_boundary(b, 4, 8, 6);
                assert(rest.spec_bytes() =~= b.subrange(4, 8));
            }
            let (second, third) = rest.split_at(2);
            proof {
                encode_utf8_decode_utf8(second@);
                encode_utf8_decode_utf8(third@);
                assert(second.spec_bytes() =~= b.subrange(4, 6));
                assert(third.spec_bytes() =~= b.subrange(6, 8));
            }
            out.append(second);
            out.append("-");
            out.append(third);
        } else {
            proof {
                assert(rest.spec_bytes() =~= b.subrange(4, 6));
            }
            out.append(rest);
        }
        out
    } else {
        String::from_str(param)
    }
}

/// The kept part of a script's output: all of it when it has at most
/// `MAX_OUTPUT_BYTES` bytes, else its last `MAX_OUTPUT_BYTES` bytes.
pub open spec fn output_tail(s: Seq<char>) -> Seq<char> {
    let b = encode_utf8(s);
    if b.len() > MAX_OUTPUT_BYTES {
        decode_utf8(b.subrange(b.len() - MAX_OUTPUT_BYTES, b.len() as int))
    } else {
        s
    }
}

/// Keeps the end of a script's output.
pub fn tail_of_output(s: &str) -> (res: String)
    requires
        encode_utf8(s@).len() > MAX_OUTPUT_BYTES ==> is_char_boundary(
            encode_utf8(s@),
            encode_utf8(s@).len() - MAX_OUTPUT_BYTES,
        ),
    ensures
        res@ == output_tail(s@),
{
    let len = byte_len(s);
    if len > MAX_OUTPUT_BYTES {
        let (_, tail) = s.split_at(len - MAX_OUTPUT_BYTES);
        proof {
            encode_utf8_decode_utf8(tail@);
        }
        String::from_str(tail)
    } else {
        String::from_str(s)
    }
}

/// The message given when a script file is missing.
pub open spec fn missing_script_message(script_path: Seq<char>) -> Seq<char> {
    "脚本文件不存在: "@ + script_path
}

/// The result for a script file that does not exist: a failure with the
/// path in the error text and return code -1.
pub fn script_missing(script_path: &str) -> (res: ScriptResult)
    ensures
        !res.success,
        res.stdout@.len() == 0,
        res.stderr@ == missing_script_message(script_path@),
        res.returncode == -1,
{
    let mut stderr = String::from_str("脚本文件不存在: ");
    stderr.append(script_path);
    ScriptResult { success: false, stdout: String::new(), stderr, returncode: -1 }
}

/// The result for a script that could not be started: a failure with the
/// system's error text and return code -1.
pub fn script_not_started(error: &str) -> (res: ScriptResult)
    ensures
        !res.success,
        res.stdout@.len() == 0,
        res.stderr@ == error@,
        res.returncode == -1,
{
    ScriptResult { success: false, stdout: String::new(), stderr: String::from_str(error), returncode: -1 }
}

/// Whether the end of an output can be cut off at `MAX_OUTPUT_BYTES` bytes
/// from its end (else cutting it panics).
pub open spec fn tail_cuttable(s: Seq<char>) -> bool {
    encode_utf8(s).len() > MAX_OUTPUT_BYTES ==> is_char_boundary(
        encode_utf8(s),
        encode_utf8(s).len() - MAX_OUTPUT_BYTES,
    )
}

/// The result for a script that ran: its exit status, the kept end of each
/// output, and its exit code (-1 when it has none, as after a signal).
pub fn script_finished(success: bool, stdout: &str, stderr: &str, code: Option<i32>) -> (res: ScriptResult)
    requires
        tail_cuttable(stdout@),
        tail_cuttable(stderr@),
    ensures
        res.success == success,
        res.stdout@ == output_tail(stdout@),
        res.stderr@ == output_tail(stderr@),
        res.returncode == match code {
            Some(c) => c,
            None => -1i32,
        },
{
    let out = tail_of_output(stdout);
    let err = tail_of_output(stderr);
    let returncode = match code {
        Some(c) => c,
        None => -1,
    };
    ScriptResult { success, stdout: out, stderr: err, returncode }
}

} // verus!
