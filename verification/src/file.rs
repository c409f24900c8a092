//! Folder-listing entries and media paths.
//!
//! The pure side of the file surface: building the listing entry for a
//! folder or a file, deriving the endpoint from the media type, joining
//! the media root onto a relative path, and ordering a listing with
//! folders first.  Reading directories and sniffing content types stays
//! with the caller.

use vstd::prelude::*;

verus! {

/// The media root that request paths are resolved under.
pub fn media_folder() -> (s: &'static str)
    ensures
        s@ == "media"@,
{
    "media"
}

/// Joins the media root and a relative request path with a separator.
pub fn get_media_path(path: &String) -> (full: String)
    ensures
        full@ == "media"@ + "/"@ + path@,
{
    let mut full = String::from_str(media_folder());
    full.append("/");
    full.append(path.as_str());
    full
}

/// Duration metadata served for one media file.
#[derive(Debug)]
pub struct FileMetadata {
    /// The clip duration in milliseconds.
    pub duration_ms: i64,
}

impl FileMetadata {
    /// Wraps a probed duration, standing in zero when none could be read.
    pub fn from_duration(duration_ms: Option<i64>) -> (m: FileMetadata)
        ensures
            m.duration_ms == (match duration_ms {
                Some(d) => d,
                None => 0,
            }),
    {
        match duration_ms {
            Some(d) => FileMetadata { duration_ms: d },
            None => FileMetadata { duration_ms: 0 },
        }
    }
}

/// One entry of a folder listing.
#[derive(Debug)]
pub struct FileInfo {
    pub api_href: String,
    pub file_type: String,
    pub href: String,
    pub is_folder: bool,
    pub name: String,
    pub mime: String,
}

/// The broad media type an entry reports: the subtype stands in for the
/// uninformative `application` type.
pub fn effective_file_type(main_type: &String, subtype: &String) -> (t: String)
    ensures
        t@ == if main_type@ == "application"@ {
            subtype@
        } else {
            main_type@
        },
{
    let application = String::from_str("application");
    if *main_type == application {
        subtype.clone()
    } else {
        main_type.clone()
    }
}

impl FileInfo {
    /// The listing entry for a folder: it links to the folder API and is
    /// served as JSON.
    pub fn folder_entry(url_path: &String, name: &String) -> (info: FileInfo)
        ensures
            info.api_href@ == "/api/folder/"@ + url_path@,
            info.file_type@ == "folder"@,
            info.href@ == "/"@ + url_path@,
            info.is_folder,
            info.name@ == name@,
            info.mime@ == "application/json"@,
    {
        let mut api_href = String::from_str("/api/folder/");
        api_href.append(url_path.as_str());
        let mut href = String::from_str("/");
        href.append(url_path.as_str());
        FileInfo {
            api_href,
            file_type: String::from_str("folder"),
            href,
            is_folder: true,
            name: name.clone(),
            mime: String::from_str("application/json"),
        }
    }

    /// The listing entry for a file: a video links to the thumbnail API,
    /// anything else to plain file serving.
    pub fn file_entry(url_path: &String, name: &String, file_type: &String, mime: &String) -> (info:
        FileInfo)
        ensures
            info.api_href@ == "/"@ + (if file_type@ == "video"@ {
                "api/thumbnail"@
            } else {
                "file"@
            }) + "/"@ + url_path@,
            info.file_type@ == file_type@,
            info.href@ == "/"@ + url_path@,
            !info.is_folder,
            info.name@ == name@,
            info.mime@ == mime@,
    {
        let video = String::from_str("video");
        let endpoint: &'static str = if *file_type == video {
            "api/thumbnail"
        } else {
            "file"
        };
        let mut api_href = String::from_str("/");
        api_href.append(endpoint);
        api_href.append("/");
        api_href.append(url_path.as_str());
        let mut href = String::from_str("/");
        href.append(url_path.as_str());
        FileInfo {
            api_href,
            file_type: file_type.clone(),
            href,
            is_folder: false,
            name: name.clone(),
            mime: mime.clone(),
        }
    }
}

impl Default for FileInfo {
    /// The placeholder entry used when a directory member cannot be read.
    fn default() -> (d: FileInfo)
        ensures
            d.api_href@ == ""@,
            d.file_type@ == "unknown"@,
            d.href@ == ""@,
            !d.is_folder,
            d.name@ == "unknown"@,
            d.mime@ == "text/plain"@,
    {
        FileInfo {
            api_href: String::from_str(""),
            file_type: String::from_str("unknown"),
            href: String::from_str(""),
            is_folder: false,
            name: String::from_str("unknown"),
            mime: String::from_str("text/plain"),
        }
    }
}

/// One filter step: filtering a sequence extended by one element keeps
/// the element exactly when the predicate holds of it.
proof fn lemma_filter_push(s: Seq<FileInfo>, pred: spec_fn(FileInfo) -> bool, x: FileInfo)
    ensures
        s.push(x).filter(pred) == if pred(x) {
            s.filter(pred).push(x)
        } else {
            s.filter(pred)
        },
{
    reveal_with_fuel(Seq::<FileInfo>::filter, 2);
    assert(s.push(x).drop_last() =~= s);
    assert(s.push(x).last() == x);
}

/// Orders a folder listing with every folder before every file, keeping
/// the listing order inside each group.
pub fn sort_folders_first(entries: Vec<FileInfo>) -> (sorted: Vec<FileInfo>)
    ensures
        sorted@ == entries@.filter(|f: FileInfo| f.is_folder) + entries@.filter(
            |f: FileInfo| !f.is_folder,
        ),
{
    let ghost all = entries@;
    let mut folders: Vec<FileInfo> = Vec::new();
    let mut files: Vec<FileInfo> = Vec::new();
    let mut rest = entries;
    let ghost mut k: int = 0;
    while rest.len() > 0
        invariant
            0 <= k <= all.len(),
            rest@ == all.subrange(k, all.len() as int),
            folders@ == all.subrange(0, k).filter(|f: FileInfo| f.is_folder),
            files@ == all.subrange(0, k).filter(|f: FileInfo| !f.is_folder),
        decreases rest@.len(),
    {
        let f = rest.remove(0);
        proof {
            assert(f == all[k]);
            assert(all.subrange(0, k + 1) =~= all.subrange(0, k).push(all[k]));
            lemma_filter_push(all.subrange(0, k), |f: FileInfo| f.is_folder, all[k]);
            lemma_filter_push(all.subrange(0, k), |f: FileInfo| !f.is_folder, all[k]);
            assert(rest@ =~= all.subrange(k + 1, all.len() as int));
        }
        if f.is_folder {
            folders.push(f);
        } else {
            files.push(f);
        }
        proof {
            k = k + 1;
        }
    }
    proof {
        assert(all.subrange(0, k) =~= all);
    }
    let mut sorted = folders;
    sorted.append(&mut files);
    sorted
}

} // verus!
