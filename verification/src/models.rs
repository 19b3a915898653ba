//! The whisper models offered by the application: one file per level, named
//! after it, in the models folder.

use vstd::prelude::*;
use crate::paths::{join, join_spec};
use crate::text::{concat, str_equal};

verus! {

/// A level of whisper model.
#[derive(Debug)]
pub struct ModelLevel {
    /// A stable id, such as `base`, from which the file name and URL are made.
    pub id: &'static str,
    pub label: &'static str,
    /// The approximate download size in MB.
    pub approx_size_mb: u32,
}

/// The state of a level for the interface.
#[derive(Debug)]
pub struct ModelInfo {
    pub id: String,
    pub label: String,
    pub approx_size_mb: u32,
    pub downloaded: bool,
    /// The absolute path of the file, when it is downloaded.
    pub path: Option<String>,
}

/// The levels, in order: id, label and approximate size.
pub open spec fn level_table() -> Seq<(Seq<char>, Seq<char>, u32)> {
    seq![
        ("tiny"@, "Tiny"@, 75u32),
        ("base"@, "Base"@, 142u32),
        ("small"@, "Small"@, 466u32),
        ("medium"@, "Medium"@, 1536u32),
        ("large-v3"@, "Large v3"@, 2960u32),
    ]
}

/// The position of the level `id` in the table, the first when repeated.
pub open spec fn level_index(id: Seq<char>) -> Option<int> {
    if id == "tiny"@ {
        Some(0)
    } else if id == "base"@ {
        Some(1)
    } else if id == "small"@ {
        Some(2)
    } else if id == "medium"@ {
        Some(3)
    } else if id == "large-v3"@ {
        Some(4)
    } else {
        None
    }
}

/// The supported levels (`base` is the one the interface starts with).
pub fn levels() -> (r: Vec<ModelLevel>)
    ensures
        r.len() == level_table().len(),
        forall|i: int|
            0 <= i < r.len() ==> (#[trigger] r@[i]).id@ == level_table()[i].0 && r@[i].label@
                == level_table()[i].1 && r@[i].approx_size_mb == level_table()[i].2,
{
    let mut r: Vec<ModelLevel> = Vec::new();
    r.push(ModelLevel { id: "tiny", label: "Tiny", approx_size_mb: 75 });
    r.push(ModelLevel { id: "base", label: "Base", approx_size_mb: 142 });
    r.push(ModelLevel { id: "small", label: "Small", approx_size_mb: 466 });
    r.push(ModelLevel { id: "medium", label: "Medium", approx_size_mb: 1536 });
    r.push(ModelLevel { id: "large-v3", label: "Large v3", approx_size_mb: 2960 });
    r
}

/// The level `id`; an error when no level has it.
pub fn level(id: &str) -> (r: Result<ModelLevel, String>)
    ensures
        match level_index(id@) {
            None => r matches Err(e) && e@ == "Nivel de modelo desconocido: "@ + id@,
            Some(i) => r matches Ok(l) && l.id@ == level_table()[i].0 && l.label@
                == level_table()[i].1 && l.approx_size_mb == level_table()[i].2,
        },
{
    if str_equal(id, "tiny") {
        Ok(ModelLevel { id: "tiny", label: "Tiny", approx_size_mb: 75 })
    } else if str_equal(id, "base") {
        Ok(ModelLevel { id: "base", label: "Base", approx_size_mb: 142 })
    } else if str_equal(id, "small") {
        Ok(ModelLevel { id: "small", label: "Small", approx_size_mb: 466 })
    } else if str_equal(id, "medium") {
        Ok(ModelLevel { id: "medium", label: "Medium", approx_size_mb: 1536 })
    } else if str_equal(id, "large-v3") {
        Ok(ModelLevel { id: "large-v3", label: "Large v3", approx_size_mb: 2960 })
    } else {
        Err(concat("Nivel de modelo desconocido: ", id))
    }
}

/// The file of the level `id` in the models folder `dir`: `ggml-<id>.bin`.
pub open spec fn model_file_spec(dir: Seq<char>, id: Seq<char>) -> Seq<char> {
    join_spec(dir, "ggml-"@ + id + ".bin"@)
}

/// The file of a level in the models folder `dir`.
pub fn level_file(dir: &str, id: &str) -> (r: String)
    ensures
        r@ == model_file_spec(dir@, id@),
{
    let name = concat("ggml-", id);
    let name = concat(name.as_str(), ".bin");
    join(dir, name.as_str())
}

/// The file of the level `id` in the models folder; an error when no level
/// has that id.
pub fn model_path(dir: &str, id: &str) -> (r: Result<String, String>)
    ensures
        match level_index(id@) {
            None => r matches Err(e) && e@ == "Nivel de modelo desconocido: "@ + id@,
            Some(i) => r matches Ok(p) && p@ == model_file_spec(dir@, id@),
        },
{
    let l = level(id)?;
    Ok(level_file(dir, l.id))
}

/// The state of `level`, whose file is present when `downloaded`.
pub fn info(dir: &str, level: &ModelLevel, downloaded: bool) -> (r: ModelInfo)
    ensures
        r.id@ == level.id@,
        r.label@ == level.label@,
        r.approx_size_mb == level.approx_size_mb,
        r.downloaded == downloaded,
        downloaded ==> (r.path matches Some(p) && p@ == model_file_spec(dir@, level.id@)),
        !downloaded ==> r.path is None,
{
    let path = level_file(dir, level.id);
    ModelInfo {
        id: level.id.to_owned(),
        label: level.label.to_owned(),
        approx_size_mb: level.approx_size_mb,
        downloaded,
        path: if downloaded {
            Some(path)
        } else {
            None
        },
    }
}

/// Every level with its state; `present[i]` tells whether the file of the
/// `i`-th level is there.
pub fn list(dir: &str, present: &Vec<bool>) -> (r: Vec<ModelInfo>)
    requires
        present.len() == level_table().len(),
    ensures
        r.len() == level_table().len(),
        forall|i: int|
            0 <= i < r.len() ==> {
                &&& (#[trigger] r@[i]).id@ == level_table()[i].0
                &&& r@[i].label@ == level_table()[i].1
                &&& r@[i].approx_size_mb == level_table()[i].2
                &&& r@[i].downloaded == present@[i]
                &&& present@[i] ==> (r@[i].path matches Some(p) && p@ == model_file_spec(
                    dir@,
                    level_table()[i].0,
                ))
                &&& !present@[i] ==> r@[i].path is None
            },
{
    let all = levels();
    let mut out: Vec<ModelInfo> = Vec::new();
    let mut i: usize = 0;
    while i < all.len()
        invariant
            i <= all.len(),
            all.len() == level_table().len(),
            present.len() == level_table().len(),
            forall|k: int|
                0 <= k < all.len() ==> (#[trigger] all@[k]).id@ == level_table()[k].0
                    && all@[k].label@ == level_table()[k].1 && all@[k].approx_size_mb
                    == level_table()[k].2,
            out.len() == i,
            forall|k: int|
                0 <= k < i ==> {
                    &&& (#[trigger] out@[k]).id@ == level_table()[k].0
                    &&& out@[k].label@ == level_table()[k].1
                    &&& out@[k].approx_size_mb == level_table()[k].2
                    &&& out@[k].downloaded == present@[k]
                    &&& present@[k] ==> (out@[k].path matches Some(p) && p@ == model_file_spec(
                        dir@,
                        level_table()[k].0,
                    ))
                    &&& !present@[k] ==> out@[k].path is None
                },
        decreases all.len() - i,
    {
        out.push(info(dir, &all[i], present[i]));
        i += 1;
    }
    out
}

/// What deleting the level `id` from the models folder `dir` comes to, given
/// whether its file is `present`: the file to remove, none when it is
/// absent, or an error when no level has that id.
pub open spec fn delete_spec(dir: Seq<char>, id: Seq<char>, present: bool) -> Result<
    Option<Seq<char>>,
    Seq<char>,
> {
    match level_index(id) {
        None => Err("Nivel de modelo desconocido: "@ + id),
        Some(_) => Ok(
            if present {
                Some(model_file_spec(dir, id))
            } else {
                None
            },
        ),
    }
}

/// The files of a folder after removing the one planned, if any.
pub open spec fn remove_planned(files: Set<Seq<char>>, plan: Option<Seq<char>>) -> Set<Seq<char>> {
    match plan {
        None => files,
        Some(f) => files.remove(f),
    }
}

/// The files of the folder `dir` after deleting the level `id` from it, when
/// `files` are there before: the removal that `delete` plans, or its error.
pub open spec fn delete_effect(files: Set<Seq<char>>, dir: Seq<char>, id: Seq<char>) -> Result<
    Set<Seq<char>>,
    Seq<char>,
> {
    match delete_spec(dir, id, files.contains(model_file_spec(dir, id))) {
        Err(e) => Err(e),
        Ok(plan) => Ok(remove_planned(files, plan)),
    }
}

/// Deleting the level `id` from the models folder `dir`: the file to remove
/// when it is `present`, `None` when there is nothing to remove (deleting
/// again is no error); an error when no level has that id.
pub fn delete(dir: &str, id: &str, present: bool) -> (r: Result<Option<String>, String>)
    ensures
        match delete_spec(dir@, id@, present) {
            Err(m) => r matches Err(e) && e@ == m,
            Ok(None) => r matches Ok(None),
            Ok(Some(f)) => r matches Ok(Some(p)) && p@ == f,
        },
{
    let path = model_path(dir, id)?;
    if present {
        Ok(Some(path))
    } else {
        Ok(None)
    }
}

/// Deleting a level is idempotent: it fails exactly for an unknown level;
/// otherwise the level's file is gone afterwards, every other file of the
/// folder stays as it was, and deleting again changes nothing.
pub proof fn lemma_delete_idempotent(files: Set<Seq<char>>, dir: Seq<char>, id: Seq<char>)
    ensures
        delete_effect(files, dir, id) is Err <==> level_index(id) is None,
        delete_effect(files, dir, id) matches Ok(once) ==> {
            &&& !once.contains(model_file_spec(dir, id))
            &&& forall|f: Seq<char>| f != model_file_spec(dir, id) ==> (#[trigger] once.contains(f)
                <==> files.contains(f))
            &&& delete_effect(once, dir, id) == Ok::<Set<Seq<char>>, Seq<char>>(once)
        },
{
    if let Ok(once) = delete_effect(files, dir, id) {
        let file = model_file_spec(dir, id);
        if files.contains(file) {
            assert(once == files.remove(file));
        } else {
            assert(once == files);
        }
        assert(!once.contains(file));
        assert(delete_effect(once, dir, id) == Ok::<Set<Seq<char>>, Seq<char>>(once));
    }
}

/// Where the level `id` is downloaded from.
pub open spec fn model_url_spec(id: Seq<char>) -> Seq<char> {
    "https://huggingface.co/ggerganov/whisper.cpp/resolve/main/ggml-"@ + id + ".bin"@
}

/// The download of a level: its URL, its file, and the partial file it is
/// written to first (`ggml-<id>.bin.part`).
#[derive(Debug)]
pub struct DownloadTarget {
    pub url: String,
    pub destination: String,
    pub partial: String,
}

/// Where the level `id` is downloaded from and to; an error when no level has
/// that id.
pub fn download_target(dir: &str, id: &str) -> (r: Result<DownloadTarget, String>)
    ensures
        match level_index(id@) {
            None => r matches Err(e) && e@ == "Nivel de modelo desconocido: "@ + id@,
            Some(i) => r matches Ok(t) && t.url@ == model_url_spec(id@) && t.destination@
                == model_file_spec(dir@, id@) && t.partial@ == join_spec(
                dir@,
                "ggml-"@ + id@ + ".bin.part"@,
            ),
        },
{
    let l = level(id)?;
    let url = concat("https://huggingface.co/ggerganov/whisper.cpp/resolve/main/ggml-", l.id);
    let url = concat(url.as_str(), ".bin");
    let destination = level_file(dir, l.id);
    let partial_name = concat("ggml-", l.id);
    let partial_name = concat(partial_name.as_str(), ".bin.part");
    let partial = join(dir, partial_name.as_str());
    Ok(DownloadTarget { url, destination, partial })
}

/// Where a model file of one's own is copied as the level `id`; an error when
/// no level has that id or when `source` is not a file.
pub fn import_target(dir: &str, id: &str, source: &str, source_is_file: bool) -> (r: Result<
    String,
    String,
>)
    ensures
        match level_index(id@) {
            None => r matches Err(e) && e@ == "Nivel de modelo desconocido: "@ + id@,
            Some(i) => if source_is_file {
                r matches Ok(p) && p@ == model_file_spec(dir@, id@)
            } else {
                r matches Err(e) && e@ == "El archivo del modelo no existe: "@ + source@
            },
        },
{
    let l = level(id)?;
    if !source_is_file {
        return Err(concat("El archivo del modelo no existe: ", source));
    }
    Ok(level_file(dir, l.id))
}

} // verus!
