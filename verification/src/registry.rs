//! The registry of files the server may hand out: its records, the rule by
//! which a directory walk is merged into it, and the text it is stored as.

use crate::text::{append_chars, chars_of, remove_last, replace, replace_all, string_of, without_last};
use vstd::prelude::*;

verus! {

/// One registered file: where it lives and whether clients may fetch it.
pub struct WebFile {
    pub path: String,
    pub public: bool,
}

/// What a record says, as plain values.
pub struct FileEntry {
    pub path: Seq<char>,
    pub public: bool,
}

impl View for WebFile {
    type V = FileEntry;

    open spec fn view(&self) -> FileEntry {
        FileEntry { path: self.path@, public: self.public }
    }
}

impl WebFile {
    /// Builds a record from its two fields.
    pub fn new(path: String, public: bool) -> (file: WebFile)
        ensures
            file.path == path,
            file.public == public,
    {
        WebFile { path: path, public: public }
    }
}

/// The records of a list, each as plain values.
pub open spec fn entries(files: Seq<WebFile>) -> Seq<FileEntry> {
    files.map_values(|f: WebFile| f@)
}

/// The texts of a list of strings.
pub open spec fn texts(strings: Seq<String>) -> Seq<Seq<char>> {
    strings.map_values(|s: String| s@)
}

/// Whether the registry knows `path`, and if so whether the file is public.
/// Where several records share the path, the last one decides.
pub open spec fn lookup(known: Seq<FileEntry>, path: Seq<char>) -> Option<bool>
    decreases known.len(),
{
    if known.len() == 0 {
        None
    } else if known.last().path == path {
        Some(known.last().public)
    } else {
        lookup(known.drop_last(), path)
    }
}

/// The records of `known` that carry `path`, in their order.
pub open spec fn matching(known: Seq<FileEntry>, path: Seq<char>) -> Seq<FileEntry>
    decreases known.len(),
{
    if known.len() == 0 {
        Seq::empty()
    } else if known.last().path == path {
        matching(known.drop_last(), path).push(known.last())
    } else {
        matching(known.drop_last(), path)
    }
}

/// A path as the registry spells it: with `/` for every `\`.
pub open spec fn normalized(path: Seq<char>) -> Seq<char> {
    replace_all(path, seq!['\\'], seq!['/'])
}

/// What one walked path contributes to the registry: the records already
/// kept for it, or, where there is none, a new public record.
pub open spec fn registered_as(known: Seq<FileEntry>, path: Seq<char>) -> Seq<FileEntry> {
    let kept = matching(known, path);
    if kept.len() == 0 {
        seq![FileEntry { path: path, public: true }]
    } else {
        kept
    }
}

/// The registry after a walk that met `paths`, in that order.
pub open spec fn merged(paths: Seq<Seq<char>>, known: Seq<FileEntry>) -> Seq<FileEntry>
    decreases paths.len(),
{
    if paths.len() == 0 {
        Seq::empty()
    } else {
        merged(paths.drop_last(), known) + registered_as(known, normalized(paths.last()))
    }
}

/// The records that may be written: all but those of directories. A record
/// without a flag counts as a file.
pub open spec fn files_among(all: Seq<FileEntry>, is_directory: Seq<bool>) -> Seq<FileEntry>
    decreases all.len(),
{
    if all.len() == 0 {
        Seq::empty()
    } else {
        let last = all.len() - 1;
        let front = files_among(all.drop_last(), is_directory);
        if last < is_directory.len() && is_directory[last] {
            front
        } else {
            front.push(all.last())
        }
    }
}

/// One serialized record as it stands in the stored text: a line feed
/// behind every `{`, and every `}` on a line of its own with a comma.
pub open spec fn framed(record: Seq<char>) -> Seq<char> {
    replace_all(replace_all(record, seq!['{'], seq!['{', '\n']), seq!['}'], seq!['\n', '}', ','])
}

/// The framed records, one after the other.
pub open spec fn framed_all(records: Seq<Seq<char>>) -> Seq<char>
    decreases records.len(),
{
    if records.len() == 0 {
        Seq::empty()
    } else {
        framed_all(records.drop_last()) + framed(records.last())
    }
}

/// The stored text of a registry: the framed records between square
/// brackets, the comma of the last one taken off.
pub open spec fn registry_text(records: Seq<Seq<char>>) -> Seq<char> {
    without_last(seq!['[', '\n'] + framed_all(records)) + seq!['\n', ']', '\n']
}

/// Finds `path` among `files`: `None` if it is unknown, else whether it is
/// public.
pub fn find(files: &Vec<WebFile>, path: &String) -> (found: Option<bool>)
    ensures
        found == lookup(entries(files@), path@),
{
    let mut found: Option<bool> = None;
    let mut i: usize = 0;
    assert(entries(files@).take(0) =~= Seq::<FileEntry>::empty());
    while i < files.len()
        invariant
            i <= files.len(),
            found == lookup(entries(files@).take(i as int), path@),
        decreases files.len() - i,
    {
        let ghost next = entries(files@).take(i + 1);
        assert(next.drop_last() =~= entries(files@).take(i as int));
        assert(next.last() == files@[i as int]@);
        if files[i].path == *path {
            found = Some(files[i].public);
        }
        i += 1;
    }
    assert(entries(files@).take(i as int) =~= entries(files@));
    found
}

/// The registry's reader and writer.
pub struct JsonConfig;

impl JsonConfig {
    /// Spells a walked path the registry's way.
    pub fn normalize(path: &str) -> (out: String)
        ensures
            out@ == normalized(path@),
    {
        let from: Vec<char> = vec!['\\'];
        let to: Vec<char> = vec!['/'];
        let spelled = replace(&chars_of(path), &from, &to);
        assert(from@ =~= seq!['\\'] && to@ =~= seq!['/']);
        string_of(&spelled)
    }

    /// Merges a directory walk into the registry: each path keeps the records
    /// it had, and a path met for the first time is registered as public.
    pub fn register(paths: &Vec<String>, known: &Vec<WebFile>) -> (out: Vec<WebFile>)
        ensures
            entries(out@) == merged(texts(paths@), entries(known@)),
    {
        let mut out: Vec<WebFile> = Vec::new();
        let mut i: usize = 0;
        assert(texts(paths@).take(0) =~= Seq::<Seq<char>>::empty());
        assert(entries(out@) =~= Seq::<FileEntry>::empty());
        while i < paths.len()
            invariant
                i <= paths.len(),
                entries(out@) == merged(texts(paths@).take(i as int), entries(known@)),
            decreases paths.len() - i,
        {
            let path = JsonConfig::normalize(paths[i].as_str());
            let ghost before = entries(out@);
            let ghost walked = texts(paths@).take(i + 1);
            assert(walked.drop_last() =~= texts(paths@).take(i as int));
            assert(walked.last() == paths@[i as int]@);
            let mut registered = false;
            let mut k: usize = 0;
            assert(entries(known@).take(0) =~= Seq::<FileEntry>::empty());
            assert(before + Seq::<FileEntry>::empty() =~= before);
            while k < known.len()
                invariant
                    k <= known.len(),
                    entries(out@) == before + matching(entries(known@).take(k as int), path@),
                    registered == (matching(entries(known@).take(k as int), path@).len() > 0),
                decreases known.len() - k,
            {
                let ghost seen = entries(known@).take(k + 1);
                let ghost kept = matching(entries(known@).take(k as int), path@);
                assert(seen.drop_last() =~= entries(known@).take(k as int));
                assert(seen.last() == known@[k as int]@);
                if known[k].path == path {
                    let ghost listed = entries(out@);
                    out.push(WebFile::new(known[k].path.clone(), known[k].public));
                    assert(entries(out@) =~= listed.push(known@[k as int]@));
                    assert(entries(out@) =~= before + kept.push(known@[k as int]@));
                    registered = true;
                }
                k += 1;
            }
            assert(entries(known@).take(k as int) =~= entries(known@));
            if !registered {
                let ghost listed = entries(out@);
                let ghost fresh = FileEntry { path: path@, public: true };
                out.push(WebFile::new(path, true));
                assert(entries(out@) =~= listed.push(fresh));
                assert(entries(out@) =~= before + seq![fresh]);
            }
            i += 1;
        }
        assert(texts(paths@).take(i as int) =~= texts(paths@));
        out
    }

    /// Leaves directories out of a list of records; `is_directory` holds, by
    /// index, whether a record's path is a directory.
    pub fn files_only(input: &Vec<WebFile>, is_directory: &Vec<bool>) -> (out: Vec<WebFile>)
        ensures
            entries(out@) == files_among(entries(input@), is_directory@),
    {
        let mut out: Vec<WebFile> = Vec::new();
        let mut i: usize = 0;
        assert(entries(input@).take(0) =~= Seq::<FileEntry>::empty());
        assert(entries(out@) =~= Seq::<FileEntry>::empty());
        while i < input.len()
            invariant
                i <= input.len(),
                entries(out@) == files_among(entries(input@).take(i as int), is_directory@),
            decreases input.len() - i,
        {
            let ghost seen = entries(input@).take(i + 1);
            assert(seen.drop_last() =~= entries(input@).take(i as int));
            assert(seen.last() == input@[i as int]@);
            if !(i < is_directory.len() && is_directory[i]) {
                let ghost listed = entries(out@);
                out.push(WebFile::new(input[i].path.clone(), input[i].public));
                assert(entries(out@) =~= listed.push(input@[i as int]@));
            }
            i += 1;
        }
        assert(entries(input@).take(i as int) =~= entries(input@));
        out
    }

    /// The text to store for a registry whose records, each serialized on
    /// its own, are `records`.
    #[allow(non_snake_case)]
    pub fn writeFiles(records: &Vec<String>) -> (stored: String)
        ensures
            stored@ == registry_text(texts(records@)),
    {
        let open_brace: Vec<char> = vec!['{'];
        let open_line: Vec<char> = vec!['{', '\n'];
        let close_brace: Vec<char> = vec!['}'];
        let close_line: Vec<char> = vec!['\n', '}', ','];
        assert(open_brace@ =~= seq!['{'] && open_line@ =~= seq!['{', '\n']);
        assert(close_brace@ =~= seq!['}'] && close_line@ =~= seq!['\n', '}', ',']);
        let mut res: Vec<char> = vec!['[', '\n'];
        let ghost head = res@;
        assert(head =~= seq!['[', '\n']);
        let mut i: usize = 0;
        assert(texts(records@).take(0) =~= Seq::<Seq<char>>::empty());
        assert(head + Seq::<char>::empty() =~= head);
        while i < records.len()
            invariant
                i <= records.len(),
                open_brace@ == seq!['{'],
                open_line@ == seq!['{', '\n'],
                close_brace@ == seq!['}'],
                close_line@ == seq!['\n', '}', ','],
                res@ == head + framed_all(texts(records@).take(i as int)),
            decreases records.len() - i,
        {
            let ghost seen = texts(records@).take(i + 1);
            let ghost front = framed_all(texts(records@).take(i as int));
            assert(seen.drop_last() =~= texts(records@).take(i as int));
            assert(seen.last() == records@[i as int]@);
            let opened = replace(&chars_of(records[i].as_str()), &open_brace, &open_line);
            let closed = replace(&opened, &close_brace, &close_line);
            append_chars(&mut res, &closed);
            assert(res@ =~= head + (front + framed(seen.last())));
            i += 1;
        }
        assert(texts(records@).take(i as int) =~= texts(records@));
        remove_last(&mut res);
        let tail: Vec<char> = vec!['\n', ']', '\n'];
        assert(tail@ =~= seq!['\n', ']', '\n']);
        append_chars(&mut res, &tail);
        string_of(&res)
    }
}

} // verus!
