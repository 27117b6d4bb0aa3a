//! Transcription by a program that runs beside this one.
use vstd::prelude::*;
use vstd::utf8::*;
use crate::text;
use crate::text::Class;
use crate::transcribe::whisper;

verus! {

/// The message where the program cannot be started.
pub open spec fn sidecar_error(error: Seq<char>) -> Seq<char> {
    "Local Whisper is not available because the whisper.cpp sidecar is missing or not bundled correctly. Expected a Tauri sidecar named 'whisper-cpp'. Build or place the sidecar under src-tauri/binaries, or switch to Groq Cloud. Original error: "@
        + error
}

/// The message where the program cannot be started.
pub fn format_sidecar_error(error: String) -> (r: String)
    ensures
        r@ == sidecar_error(error@),
{
    text::concat(
        "Local Whisper is not available because the whisper.cpp sidecar is missing or not bundled correctly. Expected a Tauri sidecar named 'whisper-cpp'. Build or place the sidecar under src-tauri/binaries, or switch to Groq Cloud. Original error: ",
        error.as_str(),
    )
}

/// The file of a model.
pub fn model_filename(model_size: &str) -> (r: String)
    ensures
        r@ == whisper::file_of(model_size@),
{
    whisper::model_filename(model_size)
}

/// Where a model comes from.
pub fn model_download_url(model_size: &str) -> (r: String)
    ensures
        r@ == whisper::home_of(model_size@),
{
    whisper::model_download_url(model_size)
}

/// The arguments of the program.
pub open spec fn arguments(
    threads: nat,
    model_path: Seq<char>,
    audio_path: Seq<char>,
) -> Seq<Seq<char>> {
    seq![
        "-t"@,
        text::decimal(threads),
        "-m"@,
        model_path,
        "-f"@,
        audio_path,
        "--no-timestamps"@,
        "--no-prints"@,
        "-l"@,
        "en"@,
    ]
}

/// The arguments of the program. Where the number of threads of the machine is
/// not known, it is four.
pub fn sidecar_args(available: Option<usize>, model_path: &str, audio_path: &str) -> (r: Vec<
    String,
>)
    ensures
        text::texts(r@) == arguments(
            match available {
                Some(n) => n as nat,
                None => 4,
            },
            model_path@,
            audio_path@,
        ),
{
    let threads: u64 = match available {
        Some(n) => n as u64,
        None => 4,
    };
    let mut v: Vec<String> = Vec::new();
    v.push("-t".to_owned());
    v.push(text::decimal_text(threads));
    v.push("-m".to_owned());
    v.push(model_path.to_owned());
    v.push("-f".to_owned());
    v.push(audio_path.to_owned());
    v.push("--no-timestamps".to_owned());
    v.push("--no-prints".to_owned());
    v.push("-l".to_owned());
    v.push("en".to_owned());
    assert(text::texts(v@) =~= arguments(threads as nat, model_path@, audio_path@));
    v
}

/// An exit code as it is shown in messages.
pub open spec fn shown_code(code: Option<i32>) -> Seq<char> {
    match code {
        None => "None"@,
        Some(c) => if c < 0 {
            "Some(-"@ + text::decimal((0 - c) as nat) + ")"@
        } else {
            "Some("@ + text::decimal(c as nat) + ")"@
        },
    }
}

fn show_code(code: Option<i32>) -> (r: String)
    ensures
        r@ == shown_code(code),
{
    match code {
        None => "None".to_owned(),
        Some(c) => {
            let wide: i64 = c as i64;
            let head = if wide < 0 {
                text::concat("Some(-", text::decimal_text((0 - wide) as u64).as_str())
            } else {
                text::concat("Some(", text::decimal_text(wide as u64).as_str())
            };
            text::concat(head.as_str(), ")")
        },
    }
}

/// What came of a run of the program.
pub open spec fn outcome(
    stdout: Seq<char>,
    stderr: Seq<char>,
    code: Option<i32>,
) -> Result<Seq<char>, Seq<char>> {
    let out = text::trimmed(Class::WhiteSpace, stdout);
    let err = text::trimmed(Class::WhiteSpace, stderr);
    if out.len() > 0 {
        Ok(out)
    } else if code != Some(0i32) {
        Err("whisper.cpp failed (exit code: "@ + shown_code(code) + "): "@ + err)
    } else {
        Err(
            "whisper.cpp returned no transcript (exit code: "@ + shown_code(code)
                + "). stderr: "@ + err,
        )
    }
}

/// The transcript of a run of the program. What it wrote counts, even where it
/// reported a failure; a run that wrote nothing failed.
pub fn transcript(stdout: &str, stderr: &str, code: Option<i32>) -> (r: Result<String, String>)
    ensures
        match r {
            Ok(t) => outcome(stdout@, stderr@, code) == Ok::<Seq<char>, Seq<char>>(t@),
            Err(e) => outcome(stdout@, stderr@, code) == Err::<Seq<char>, Seq<char>>(e@),
        },
{
    let a = text::to_chars(stdout);
    let b = text::to_chars(stderr);
    let out = text::trim(Class::WhiteSpace, a.as_slice());
    if out.len() > 0 {
        return Ok(text::to_text(out));
    }
    let err = text::to_text(text::trim(Class::WhiteSpace, b.as_slice()));
    let shown = show_code(code);
    let zero = match code {
        Some(c) => c == 0,
        None => false,
    };
    if !zero {
        let m = text::concat("whisper.cpp failed (exit code: ", shown.as_str());
        let n = text::concat(m.as_str(), "): ");
        return Err(text::concat(n.as_str(), err.as_str()));
    }
    let m = text::concat("whisper.cpp returned no transcript (exit code: ", shown.as_str());
    let n = text::concat(m.as_str(), "). stderr: ");
    Err(text::concat(n.as_str(), err.as_str()))
}

/// The text in bytes that need not be UTF-8.
pub uninterp spec fn lossy(bytes: Seq<u8>) -> Seq<char>;

/// `String::from_utf8_lossy`: the text that the bytes encode, with a mark in
/// place of what is not UTF-8, named [`lossy`]. Bytes that are UTF-8 are
/// decoded as they are.
#[verifier::external_body]
fn lossy_text(bytes: &[u8]) -> (r: String)
    ensures
        r@ == lossy(bytes@),
        valid_utf8(bytes@) ==> r@ == decode_utf8(bytes@),
{
    String::from_utf8_lossy(bytes).into_owned()
}

/// The transcript of a run of the program, from the bytes that it wrote.
pub fn transcript_from_output(stdout: &[u8], stderr: &[u8], code: Option<i32>) -> (r: Result<
    String,
    String,
>)
    ensures
        match r {
            Ok(t) => outcome(lossy(stdout@), lossy(stderr@), code) == Ok::<Seq<char>, Seq<char>>(t@),
            Err(e) => outcome(lossy(stdout@), lossy(stderr@), code) == Err::<Seq<char>, Seq<char>>(
                e@,
            ),
        },
{
    let out = lossy_text(stdout);
    let err = lossy_text(stderr);
    transcript(out.as_str(), err.as_str(), code)
}

} // verus!
