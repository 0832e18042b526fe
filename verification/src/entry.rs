//! The metadata resolver: turning a path and raw metadata probes into a
//! normalized entry snapshot.
//!
//! An entry is immutable once built; listings rebuild entries fresh every
//! time.  The surrounding binary stats the filesystem and hands the raw
//! facts in as a [`MetaProbe`]; everything derived from them is computed
//! and pinned down here.

use vstd::prelude::*;
use vstd::string::StrSliceExecFns;
use crate::path::{path_file_name, spec_file_name, valid_name, spec_dot_ext, split_stem_ext};

verus! {

/// Raw facts about one filesystem object, as stat reports them.
pub struct MetaProbe {
    /// The object is a directory (for a symlink: of the metadata read, not
    /// necessarily of the target).
    pub is_dir: bool,
    /// The object itself is a symbolic link.
    pub is_symlink: bool,
    /// Byte length.
    pub len: u64,
    /// Modification time as seconds since the epoch; `None` if the
    /// filesystem could not report one.
    pub modified_secs: Option<u64>,
}

/// One filesystem object snapshot.
pub struct FileEntry {
    /// Final path component.
    pub name: String,
    /// Absolute path; the stable identity of the entry.
    pub path: String,
    /// Whether the entry is a directory; for a symlink this reflects the
    /// target, not the link.
    pub is_dir: bool,
    /// True iff the name begins with `'.'`; a naming convention, not an OS
    /// attribute.
    pub is_hidden: bool,
    /// Byte length; forced to `0` for directories.
    pub size: u64,
    /// Formatted modification timestamp; empty if unavailable.
    pub modified: String,
    /// Trailing extension of the name, without its dot; forced empty for
    /// directories.
    pub extension: String,
    /// Whether the entry itself is a symbolic link.
    pub is_symlink: bool,
}

/// The immediate children of one directory, filtered and sorted.
pub struct DirContents {
    pub path: String,
    pub entries: Vec<FileEntry>,
    /// `None` only for a filesystem root.
    pub parent: Option<String>,
}

/// A detailed property sheet for one filesystem object.
pub struct FileProperties {
    pub name: String,
    pub path: String,
    pub is_dir: bool,
    pub size: u64,
    pub size_on_disk: u64,
    pub modified: String,
    pub created: String,
    pub accessed: String,
    pub is_readonly: bool,
    pub is_hidden: bool,
    pub is_symlink: bool,
    pub extension: String,
    /// Number of immediate children, for a directory.
    pub item_count: Option<u64>,
}

/// A name marks its object hidden iff it begins with a dot.
pub open spec fn spec_is_hidden(name: Seq<char>) -> bool {
    name.len() > 0 && name[0] == '.'
}

/// Whether a name follows the hidden-file naming convention.
pub fn is_hidden(name: &str) -> (r: bool)
    ensures
        r == spec_is_hidden(name@),
{
    if name.unicode_len() == 0 {
        false
    } else {
        name.get_char(0) == '.'
    }
}

/// The entry name derived from a path: its final component, or empty if
/// the path has no usable one.
pub open spec fn spec_entry_name(p: Seq<char>) -> Seq<char> {
    if valid_name(spec_file_name(p)) {
        spec_file_name(p)
    } else {
        Seq::<char>::empty()
    }
}

/// The metadata that describes the object behind a path: for a symlink
/// whose target could be resolved, the target's; otherwise what was read
/// from the link itself.
pub open spec fn spec_real_meta(link: MetaProbe, target: Option<MetaProbe>) -> MetaProbe {
    if link.is_symlink && target is Some {
        target->Some_0
    } else {
        link
    }
}

/// The timestamp text shown for a modification time, `""` when there is
/// none.
pub open spec fn spec_modified_text(ms: Option<u64>) -> Seq<char> {
    match ms {
        Some(s) => timestamp_text(s as int),
        None => Seq::<char>::empty(),
    }
}

/// The extension shown for a name: the text after the split dot, without
/// the dot itself; empty when the name has no extension.
pub open spec fn spec_ext_plain(n: Seq<char>) -> Seq<char> {
    if spec_dot_ext(n).len() == 0 {
        Seq::<char>::empty()
    } else {
        spec_dot_ext(n).skip(1)
    }
}

impl FileEntry {
    /// The snapshot invariant: `is_hidden` is a pure function of the name,
    /// and directories carry no size and no extension.
    pub open spec fn wf(self) -> bool {
        &&& self.is_hidden == spec_is_hidden(self.name@)
        &&& self.is_dir ==> self.size == 0
        &&& self.is_dir ==> self.extension@.len() == 0
    }
}

/// What `timestamp_display` returns for given epoch seconds.
pub uninterp spec fn timestamp_text(secs: int) -> Seq<char>;

/// Relies on chrono::DateTime::from_timestamp and `DateTime::format` with
/// the fixed layout `%Y-%m-%d %H:%M:%S`: the text is a pure function of
/// the epoch seconds (UTC, locale-independent), and an out-of-range value
/// gives the empty string.
#[verifier::external_body]
fn timestamp_display(secs: u64) -> (r: String)
    ensures
        r@ == timestamp_text(secs as int),
{
    match chrono::DateTime::from_timestamp(secs as i64, 0) {
        Some(d) => d.format("%Y-%m-%d %H:%M:%S").to_string(),
        None => String::new(),
    }
}

fn modified_string(ms: &Option<u64>) -> (r: String)
    ensures
        r@ == spec_modified_text(*ms),
{
    match ms {
        Some(s) => timestamp_display(*s),
        None => String::new(),
    }
}

fn extension_of_name(name: &str) -> (r: String)
    ensures
        r@ == spec_ext_plain(name@),
{
    let (_stem, dotext) = split_stem_ext(name);
    let len: usize = dotext.as_str().unicode_len();
    if len == 0 {
        String::new()
    } else {
        let r = String::from_str(dotext.as_str().substring_char(1, len));
        proof {
            assert(dotext@.subrange(1, len as int) =~= dotext@.skip(1));
        }
        r
    }
}

/// Builds the entry snapshot for `path` from the link's own metadata and,
/// for symlinks, the re-resolved target metadata when it was obtainable
/// (a broken symlink falls back to the link's own metadata and is still
/// listable).
pub fn make_entry(path: &str, link: MetaProbe, target: Option<MetaProbe>) -> (r: FileEntry)
    ensures
        r.path@ == path@,
        r.name@ == spec_entry_name(path@),
        r.is_symlink == link.is_symlink,
        r.is_dir == spec_real_meta(link, target).is_dir,
        r.size == (if spec_real_meta(link, target).is_dir {
            0u64
        } else {
            spec_real_meta(link, target).len
        }),
        r.modified@ == spec_modified_text(link.modified_secs),
        r.extension@ == (if spec_real_meta(link, target).is_dir {
            Seq::<char>::empty()
        } else {
            spec_ext_plain(spec_entry_name(path@))
        }),
        r.is_hidden == spec_is_hidden(spec_entry_name(path@)),
        r.wf(),
{
    let name: String = match path_file_name(path) {
        Some(n) => n,
        None => String::new(),
    };
    let real_is_dir: bool;
    let real_len: u64;
    if link.is_symlink {
        match &target {
            Some(t) => {
                real_is_dir = t.is_dir;
                real_len = t.len;
            },
            None => {
                real_is_dir = link.is_dir;
                real_len = link.len;
            },
        }
    } else {
        real_is_dir = link.is_dir;
        real_len = link.len;
    }
    let size: u64 = if real_is_dir {
        0
    } else {
        real_len
    };
    let modified = modified_string(&link.modified_secs);
    let extension: String = if real_is_dir {
        String::new()
    } else {
        extension_of_name(name.as_str())
    };
    let hidden = is_hidden(name.as_str());
    FileEntry {
        name,
        path: String::from_str(path),
        is_dir: real_is_dir,
        is_hidden: hidden,
        size,
        modified,
        extension,
        is_symlink: link.is_symlink,
    }
}

/// Builds the detailed property sheet.  `dir_size` is the recursively
/// accumulated size the caller computed for a directory (ignored for a
/// file); `item_count` is its number of immediate children, if it could
/// be read.
pub fn make_properties(
    path: &str,
    link: MetaProbe,
    target: Option<MetaProbe>,
    created_secs: Option<u64>,
    accessed_secs: Option<u64>,
    is_readonly: bool,
    dir_size: u64,
    item_count: Option<u64>,
) -> (r: FileProperties)
    ensures
        r.path@ == path@,
        r.name@ == spec_entry_name(path@),
        r.is_dir == spec_real_meta(link, target).is_dir,
        r.size == (if spec_real_meta(link, target).is_dir {
            dir_size
        } else {
            spec_real_meta(link, target).len
        }),
        r.size_on_disk == r.size,
        r.modified@ == spec_modified_text(link.modified_secs),
        r.created@ == spec_modified_text(created_secs),
        r.accessed@ == spec_modified_text(accessed_secs),
        r.is_readonly == is_readonly,
        r.is_hidden == spec_is_hidden(spec_entry_name(path@)),
        r.is_symlink == link.is_symlink,
        r.extension@ == (if spec_real_meta(link, target).is_dir {
            Seq::<char>::empty()
        } else {
            spec_ext_plain(spec_entry_name(path@))
        }),
        r.item_count == (if spec_real_meta(link, target).is_dir {
            item_count
        } else {
            Option::<u64>::None
        }),
{
    let name: String = match path_file_name(path) {
        Some(n) => n,
        None => String::new(),
    };
    let real_is_dir: bool;
    let real_len: u64;
    if link.is_symlink {
        match &target {
            Some(t) => {
                real_is_dir = t.is_dir;
                real_len = t.len;
            },
            None => {
                real_is_dir = link.is_dir;
                real_len = link.len;
            },
        }
    } else {
        real_is_dir = link.is_dir;
        real_len = link.len;
    }
    let size: u64 = if real_is_dir {
        dir_size
    } else {
        real_len
    };
    let extension: String = if real_is_dir {
        String::new()
    } else {
        extension_of_name(name.as_str())
    };
    let hidden = is_hidden(name.as_str());
    FileProperties {
        name,
        path: String::from_str(path),
        is_dir: real_is_dir,
        size,
        size_on_disk: size,
        modified: modified_string(&link.modified_secs),
        created: modified_string(&created_secs),
        accessed: modified_string(&accessed_secs),
        is_readonly,
        is_hidden: hidden,
        is_symlink: link.is_symlink,
        extension,
        item_count: if real_is_dir {
            item_count
        } else {
            None
        },
    }
}

} // verus!
