use vstd::prelude::*;
use vstd::string::*;

verus! {

/// An entry of the frame directory: its name, and whether it is a regular
/// file (directories and symbolic links are not).
#[derive(Clone, Debug)]
pub struct FolderEntry {
    pub name: String,
    pub is_file: bool,
}

pub open spec fn is_either(c: char, lower: char, upper: char) -> bool {
    c == lower || c == upper
}

/// The name has the extension `jpg` in any letter case: it ends in `.jpg` and
/// that dot does not open the name.
pub open spec fn has_jpg_extension(name: Seq<char>) -> bool {
    let n = name.len() as int;
    &&& n >= 5
    &&& name[n - 4] == '.'
    &&& is_either(name[n - 3], 'j', 'J')
    &&& is_either(name[n - 2], 'p', 'P')
    &&& is_either(name[n - 1], 'g', 'G')
}

/// A frame file: a regular file with the image extension.
pub open spec fn is_frame_entry(e: FolderEntry) -> bool {
    e.is_file && has_jpg_extension(e.name@)
}

/// The names of the frame files among `entries`, in their order.
pub open spec fn frame_names(entries: Seq<FolderEntry>) -> Seq<Seq<char>>
    decreases entries.len(),
{
    if entries.len() == 0 {
        Seq::empty()
    } else {
        let rest = frame_names(entries.drop_last());
        if is_frame_entry(entries.last()) {
            rest.push(entries.last().name@)
        } else {
            rest
        }
    }
}

/// Whether the entry is a frame file that cleanup removes.
pub fn is_frame_file(entry: &FolderEntry) -> (r: bool)
    ensures
        r == is_frame_entry(*entry),
{
    if !entry.is_file {
        return false;
    }
    let name = entry.name.as_str();
    let n = name.unicode_len();
    if n < 5 {
        return false;
    }
    let dot = name.get_char(n - 4);
    let j = name.get_char(n - 3);
    let p = name.get_char(n - 2);
    let g = name.get_char(n - 1);
    dot == '.' && (j == 'j' || j == 'J') && (p == 'p' || p == 'P') && (g == 'g' || g == 'G')
}

/// The names of the files that cleanup removes from the frame directory:
/// exactly the frame files, in the order given; nothing else is touched.
pub fn clean_folder(entries: &Vec<FolderEntry>) -> (r: Vec<String>)
    ensures
        r@.map_values(|s: String| s@) == frame_names(entries@),
{
    let mut out: Vec<String> = Vec::new();
    let mut i: usize = 0;
    while i < entries.len()
        invariant
            i <= entries@.len(),
            out@.map_values(|s: String| s@) == frame_names(entries@.subrange(0, i as int)),
        decreases entries@.len() - i,
    {
        let ghost before = out@;
        assert(entries@.subrange(0, i + 1).drop_last() == entries@.subrange(0, i as int));
        if is_frame_file(&entries[i]) {
            out.push(entries[i].name.clone());
            assert(out@.map_values(|s: String| s@) =~= before.map_values(|s: String| s@).push(
                entries@[i as int].name@,
            ));
        }
        i = i + 1;
    }
    assert(entries@.subrange(0, entries@.len() as int) == entries@);
    out
}

} // verus!
