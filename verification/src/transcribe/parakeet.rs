//! The Parakeet engine: its models and their files.
use vstd::prelude::*;
use crate::text;
use crate::transcribe;
use crate::transcribe::Loading;

verus! {

/// The directory of a model, which is its name.
pub open spec fn directory_of(model_id: Seq<char>) -> Seq<char> {
    model_id
}

/// Where a model comes from.
pub open spec fn home_of(model_id: Seq<char>) -> Seq<char> {
    "https://huggingface.co/istupakov/"@ + model_id + "-onnx"@
}

/// The directory of a model, which is its name.
pub fn model_filename(model_id: &str) -> (r: String)
    ensures
        r@ == directory_of(model_id@),
{
    model_id.to_owned()
}

/// Where a model comes from.
pub fn model_download_url(model_id: &str) -> (r: String)
    ensures
        r@ == home_of(model_id@),
{
    let head = text::concat("https://huggingface.co/istupakov/", model_id);
    text::concat(head.as_str(), "-onnx")
}

/// The engine is too slow for captions.
pub fn supports_streaming() -> (r: bool)
    ensures
        !r,
{
    false
}

/// The engine heeds no prompt.
pub fn supports_initial_prompt() -> (r: bool)
    ensures
        !r,
{
    false
}

/// The files that a model consists of.
pub const FILE_NAMES: [&'static str; 3] = [
    "encoder-model.int8.onnx",
    "decoder_joint-model.int8.onnx",
    "vocab.txt",
];

/// Where a file of a model comes from.
pub open spec fn file_url(model_id: Seq<char>, name: Seq<char>) -> Seq<char> {
    home_of(model_id) + "/resolve/main"@ + "/"@ + name
}

/// The files that a model consists of, each with the place it comes from.
pub fn required_files(model_id: &str) -> (r: Vec<(String, String)>)
    ensures
        r.len() == FILE_NAMES@.len(),
        forall|i: int|
            0 <= i < r.len() ==> (#[trigger] r[i]).0@ == FILE_NAMES@[i]@ && r[i].1@ == file_url(
                model_id@,
                FILE_NAMES@[i]@,
            ),
{
    let home = model_download_url(model_id);
    let base = text::concat(home.as_str(), "/resolve/main");
    let dir = text::concat(base.as_str(), "/");
    let names = FILE_NAMES;
    let mut out: Vec<(String, String)> = Vec::new();
    let mut i: usize = 0;
    while i < names.len()
        invariant
            i <= names.len(),
            names == FILE_NAMES,
            dir@ == home_of(model_id@) + "/resolve/main"@ + "/"@,
            out.len() == i,
            forall|j: int|
                0 <= j < i ==> (#[trigger] out[j]).0@ == FILE_NAMES@[j]@ && out[j].1@ == file_url(
                    model_id@,
                    FILE_NAMES@[j]@,
                ),
        decreases names.len() - i,
    {
        assert(FILE_NAMES@[i as int] == names@[i as int]);
        let url = text::concat(dir.as_str(), names[i]);
        out.push((names[i].to_owned(), url));
        i += 1;
    }
    out
}

/// Whether a name is among those of the files that are there.
pub open spec fn there(present: Seq<String>, name: Seq<char>) -> bool {
    exists|i: int| 0 <= i < present.len() && (#[trigger] present[i])@ == name
}

fn is_there(present: &[String], name: &str) -> (r: bool)
    ensures
        r == there(present@, name@),
{
    let mut i: usize = 0;
    while i < present.len()
        invariant
            i <= present@.len(),
            forall|j: int| 0 <= j < i ==> (#[trigger] present@[j])@ != name@,
        decreases present@.len() - i,
    {
        if text::same_text(present[i].as_str(), name) {
            return true;
        }
        i += 1;
    }
    false
}

/// Whether every file of a model is there, given the names of the files in its
/// directory. A download that was broken off must not be loaded.
pub fn all_files_present(dir_exists: bool, present: &[String]) -> (r: bool)
    ensures
        r == (dir_exists && forall|i: int|
            0 <= i < FILE_NAMES@.len() ==> there(present@, (#[trigger] FILE_NAMES@[i])@)),
{
    if !dir_exists {
        return false;
    }
    let names = FILE_NAMES;
    let mut i: usize = 0;
    while i < names.len()
        invariant
            i <= names.len(),
            names == FILE_NAMES,
            forall|j: int| 0 <= j < i ==> there(present@, (#[trigger] FILE_NAMES@[j])@),
        decreases names.len() - i,
    {
        assert(FILE_NAMES@[i as int] == names@[i as int]);
        if !is_there(present, names[i]) {
            return false;
        }
        i += 1;
    }
    true
}

/// What has to be done before a model can be used; an error where the engine
/// is not built in, or the model's directory is not there.
pub fn load_step(built_in: bool, dir_exists: bool, loaded: Option<&str>, wanted: &str) -> (r:
    Result<Loading, String>)
    ensures
        match r {
            Ok(l) => built_in && dir_exists && l == transcribe::loading(
                text::opt_str(loaded),
                wanted@,
            ),
            Err(e) => if !built_in {
                e@
                    == "Parakeet engine not enabled in this build. Rebuild with `--features parakeet`."@
            } else {
                !dir_exists && e@
                    == "Parakeet model directory not found. Please download a model first."@
            },
        },
{
    if !built_in {
        return Err(
            "Parakeet engine not enabled in this build. Rebuild with `--features parakeet`.".to_owned(),
        );
    }
    if !dir_exists {
        return Err(
            "Parakeet model directory not found. Please download a model first.".to_owned(),
        );
    }
    Ok(transcribe::needs_loading(loaded, wanted))
}

} // verus!
