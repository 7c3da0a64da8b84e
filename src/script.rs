//! The text of one generated script, and the name of the file that holds it.
use vstd::prelude::*;
use vstd::string::*;
use crate::text::{append_chars, chars_of, decimal, decimal_string, push_char, replace_all, replaced};

verus! {

/// The fixed text that opens every script, up to the working directory's path.
pub open spec fn header_open() -> Seq<char> {
    "import os\nimport sys\nscriptpath = \""@
}

/// The fixed text that follows the path: it loads the helpers module from that directory
/// and opens the list of data lines.
pub open spec fn header_close() -> Seq<char> {
    "/\"\nsys.path.append(os.path.abspath(scriptpath))\nimport helpers\nimport bpy\n\n# Animation name in blender & end frame\nanimationArray = [\n"@
}

/// The fixed text that closes the list of data lines.
pub open spec fn section_close() -> Seq<char> {
    "]\n\n"@
}

/// `path` with each backslash turned into a forward slash.
pub open spec fn forward_slashes(path: Seq<char>) -> Seq<char> {
    path.map_values(|c: char| if c == '\\' { '/' } else { c })
}

/// The header of a script generated in the directory `cwd`.
pub open spec fn header_of(cwd: Seq<char>) -> Seq<char> {
    header_open() + forward_slashes(cwd) + header_close()
}

/// Each of `lines` followed by a newline, in order.
pub open spec fn line_block(lines: Seq<Seq<char>>) -> Seq<char>
    decreases lines.len(),
{
    if lines.len() == 0 {
        Seq::<char>::empty()
    } else {
        line_block(lines.drop_last()) + lines.last().push('\n')
    }
}

/// The script for one group of data lines: the header, the group with its closing
/// delimiter, then the template body unchanged.
pub open spec fn document_of(cwd: Seq<char>, group: Seq<Seq<char>>, body: Seq<char>) -> Seq<char> {
    header_of(cwd) + line_block(group) + section_close() + body
}

/// The literal that names the shared template in a template's filename.
pub open spec fn template_marker() -> Seq<char> {
    "unified.py"@
}

/// The extension that the dataset's filename brings in.
pub open spec fn dataset_extension() -> Seq<char> {
    ".txt"@
}

/// `name` with a trailing `.txt` replaced by the index followed by `.py`; a name that does
/// not end with `.txt` stays as it is.
pub open spec fn indexed_name(name: Seq<char>, index: nat) -> Seq<char> {
    let ext = dataset_extension();
    if name.len() >= ext.len() && name.subrange(name.len() - ext.len(), name.len() as int) == ext {
        name.subrange(0, name.len() - ext.len()) + decimal(index) + ".py"@
    } else {
        name
    }
}

/// The name of the file for group `index`: in the template's filename, every
/// `unified.py` becomes the dataset's filename, then a trailing `.txt` becomes the index
/// followed by `.py`.
pub open spec fn script_filename_of(template: Seq<char>, dataset: Seq<char>, index: nat) -> Seq<char> {
    indexed_name(replaced(template, template_marker(), dataset), index)
}

/// The header of a script generated in the directory `cwd`.
pub fn script_header(cwd: &str) -> (r: String)
    ensures
        r@ == header_of(cwd@),
{
    let mut r = String::from_str("import os\nimport sys\nscriptpath = \"");
    let path = chars_of(cwd);
    let mut i: usize = 0;
    while i < path.len()
        invariant
            path@ == cwd@,
            i <= path.len(),
            r@ == header_open() + forward_slashes(cwd@).subrange(0, i as int),
        decreases path.len() - i,
    {
        let c = if path[i] == '\\' {
            '/'
        } else {
            path[i]
        };
        push_char(&mut r, c);
        assert(forward_slashes(cwd@).subrange(0, i + 1) =~= forward_slashes(cwd@).subrange(
            0,
            i as int,
        ).push(c));
        i = i + 1;
    }
    assert(forward_slashes(cwd@).subrange(0, i as int) =~= forward_slashes(cwd@));
    r.append(
        "/\"\nsys.path.append(os.path.abspath(scriptpath))\nimport helpers\nimport bpy\n\n# Animation name in blender & end frame\nanimationArray = [\n",
    );
    r
}

/// The script for one group of data lines.
pub fn render_document(cwd: &str, group: &Vec<String>, body: &str) -> (r: String)
    ensures
        r@ == document_of(cwd@, group.deep_view(), body@),
{
    let mut r = script_header(cwd);
    let mut i: usize = 0;
    assert(group.deep_view().subrange(0, 0) =~= Seq::<Seq<char>>::empty());
    while i < group.len()
        invariant
            i <= group.len(),
            r@ == header_of(cwd@) + line_block(group.deep_view().subrange(0, i as int)),
        decreases group.len() - i,
    {
        r.append(group[i].as_str());
        push_char(&mut r, '\n');
        let ghost next = group.deep_view().subrange(0, i + 1);
        assert(next.drop_last() =~= group.deep_view().subrange(0, i as int));
        assert(next.last() == group[i as int]@);
        i = i + 1;
    }
    assert(group.deep_view().subrange(0, i as int) =~= group.deep_view());
    r.append("]\n\n");
    r.append(body);
    r
}

/// Whether `name` ends with `.txt`.
fn ends_with_extension(name: &Vec<char>) -> (r: bool)
    ensures
        r == (name.len() >= dataset_extension().len() && name@.subrange(
            name.len() - dataset_extension().len(),
            name.len() as int,
        ) == dataset_extension()),
{
    proof {
        reveal_strlit(".txt");
    }
    let n = name.len();
    if n < 4 {
        return false;
    }
    let r = name[n - 4] == '.' && name[n - 3] == 't' && name[n - 2] == 'x' && name[n - 1] == 't';
    if r {
        assert(name@.subrange(n - 4, n as int) =~= dataset_extension());
    } else {
        assert(name@.subrange(n - 4, n as int) != dataset_extension()) by {
            let tail = name@.subrange(n - 4, n as int);
            if tail == dataset_extension() {
                assert(tail[0] == name@[n - 4]);
                assert(tail[1] == name@[n - 3]);
                assert(tail[2] == name@[n - 2]);
                assert(tail[3] == name@[n - 1]);
            }
        }
    }
    r
}

/// The name of the file for group `index` of a run with these template and dataset files.
pub fn script_filename(template: &str, dataset: &str, index: u8) -> (r: String)
    ensures
        r@ == script_filename_of(template@, dataset@, index as nat),
{
    let named = replace_all(template, "unified.py", dataset);
    let chars = chars_of(named.as_str());
    if !ends_with_extension(&chars) {
        return named;
    }
    proof {
        reveal_strlit(".txt");
    }
    let mut r = String::new();
    append_chars(&mut r, &chars, 0, chars.len() - 4);
    let digits = decimal_string(index);
    r.append(digits.as_str());
    r.append(".py");
    r
}

} // verus!
