//! The desktop entry that integrates the AppImage into the system launcher.
//!
//! On every AppImage launch the program compares the existing `.desktop`
//! file's `Exec=` value with the current AppImage path. When the path
//! changed (the AppImage was moved or renamed) or the entry is missing, the
//! entry is rewritten; when the paths match, it is left untouched. The
//! program reads and writes the files; the paths, the entry text, and the
//! decision are computed here.

use vstd::prelude::*;
use crate::text::{
    chars_eq, chars_of, extend_chars, has_prefix, is_ws, starts_with, string_of, sub_chars, trim,
    trim_chars, trim_end, trim_start, ws_prefix_len, ws_suffix_len,
};
use crate::words::{
    char_views, lemma_pieces_nonempty, lemma_pieces_single, lemma_pieces_split, lines,
    newline_pieces, split_lines, strip_cr,
};

verus! {

/// The user data directory, through `dirs::data_dir`, as the bytes of the
/// path (on Unix a path is any byte string, so nothing is lost).
///
/// The directory comes from the environment (`XDG_DATA_HOME`, or `HOME`
/// with `.local/share`), so nothing is stated of the result.
#[verifier::external_body]
fn user_data_dir() -> Option<Vec<u8>> {
    match dirs::data_dir() {
        Some(p) => Some(p.into_os_string().into_encoded_bytes()),
        None => None,
    }
}

/// The bytes of an ASCII text.
pub open spec fn ascii_bytes(s: Seq<char>) -> Seq<u8> {
    s.map_values(|c: char| c as u8)
}

fn ascii_bytes_of(s: &str) -> (r: Vec<u8>)
    ensures
        r@ == ascii_bytes(s@),
{
    let cs = chars_of(s);
    let mut r: Vec<u8> = Vec::new();
    let mut i: usize = 0;
    while i < cs.len()
        invariant
            i <= cs@.len(),
            cs@ == s@,
            r@ == ascii_bytes(s@.take(i as int)),
        decreases cs@.len() - i,
    {
        assert(ascii_bytes(s@.take(i as int + 1)) =~= ascii_bytes(s@.take(i as int)).push(cs@[i as int] as u8));
        r.push(cs[i] as u8);
        i += 1;
    }
    assert(s@.take(cs@.len() as int) =~= s@);
    r
}

/// `base` with the relative component `comp` appended, as `PathBuf::join`
/// appends one: a `/` goes between them unless `base` is empty or already
/// ends with one.
pub open spec fn join_bytes(base: Seq<u8>, comp: Seq<u8>) -> Seq<u8> {
    if base.len() == 0 {
        comp
    } else if base.last() == 47u8 {
        base + comp
    } else {
        base + seq![47u8] + comp
    }
}

fn join_bytes_of(base: &[u8], comp: &[u8]) -> (r: Vec<u8>)
    ensures
        r@ == join_bytes(base@, comp@),
{
    let mut r: Vec<u8> = Vec::new();
    let mut i: usize = 0;
    while i < base.len()
        invariant
            i <= base@.len(),
            r@ == base@.take(i as int),
        decreases base@.len() - i,
    {
        assert(base@.take(i as int + 1) =~= base@.take(i as int).push(base@[i as int]));
        r.push(base[i]);
        i += 1;
    }
    assert(base@.take(base@.len() as int) =~= base@);
    if base.len() > 0 && base[base.len() - 1] != 47u8 {
        r.push(47u8);
    }
    let ghost mid = r@;
    let mut j: usize = 0;
    while j < comp.len()
        invariant
            j <= comp@.len(),
            r@ == mid + comp@.take(j as int),
        decreases comp@.len() - j,
    {
        assert(comp@.take(j as int + 1) =~= comp@.take(j as int).push(comp@[j as int]));
        r.push(comp[j]);
        j += 1;
    }
    assert(comp@.take(comp@.len() as int) =~= comp@);
    assert(base@.len() == 0 ==> mid + comp@ =~= comp@);
    r
}

/// The desktop entry inside the data directory `data`.
pub open spec fn desktop_path_in(data: Seq<u8>) -> Seq<u8> {
    join_bytes(join_bytes(data, ascii_bytes("applications"@)), ascii_bytes("silo.desktop"@))
}

/// The app icon inside the data directory `data`.
pub open spec fn icon_path_in(data: Seq<u8>) -> Seq<u8> {
    join_bytes(join_bytes(data, ascii_bytes("icons"@)), ascii_bytes("silo.svg"@))
}

/// Path to the `.desktop` file inside the data directory `data`, both as
/// the bytes of the path.
pub fn desktop_file_path_in(data: &[u8]) -> (r: Vec<u8>)
    ensures
        r@ == desktop_path_in(data@),
{
    let apps = ascii_bytes_of("applications");
    let a = join_bytes_of(data, apps.as_slice());
    let name = ascii_bytes_of("silo.desktop");
    join_bytes_of(a.as_slice(), name.as_slice())
}

/// Path to the app icon inside the data directory `data`, both as the
/// bytes of the path.
pub fn icon_path_in_dir(data: &[u8]) -> (r: Vec<u8>)
    ensures
        r@ == icon_path_in(data@),
{
    let icons = ascii_bytes_of("icons");
    let a = join_bytes_of(data, icons.as_slice());
    let name = ascii_bytes_of("silo.svg");
    join_bytes_of(a.as_slice(), name.as_slice())
}

/// Path to the `.desktop` file at the standard user applications location,
/// as the bytes of the path, or `None` when the user data directory is
/// unknown.
pub fn desktop_file_path() -> (r: Option<Vec<u8>>)
    ensures
        r matches Some(p) ==> exists|d: Seq<u8>| p@ == desktop_path_in(d),
{
    match user_data_dir() {
        Some(d) => Some(desktop_file_path_in(d.as_slice())),
        None => None,
    }
}

/// Path to the app icon at the standard user icons location, as the bytes
/// of the path, or `None` when the user data directory is unknown.
pub fn icon_path() -> (r: Option<Vec<u8>>)
    ensures
        r matches Some(p) ==> exists|d: Seq<u8>| p@ == icon_path_in(d),
{
    match user_data_dir() {
        Some(d) => Some(icon_path_in_dir(d.as_slice())),
        None => None,
    }
}

/// The value of the first `Exec=` line among `ls`, each line trimmed.
pub open spec fn exec_in(ls: Seq<Seq<char>>) -> Option<Seq<char>>
    decreases ls.len(),
{
    if ls.len() == 0 {
        None
    } else if starts_with(trim(ls[0]), "Exec="@) {
        Some(trim(ls[0]).skip("Exec="@.len() as int))
    } else {
        exec_in(ls.drop_first())
    }
}

/// Read the `Exec=` value from the text of a `.desktop` file: the rest of
/// the first line that starts with `Exec=` once trimmed, or `None` when
/// there is no such line.
pub fn exec_from_desktop(text: &str) -> (r: Option<String>)
    ensures
        match r {
            Some(e) => exec_in(lines(text@)) == Some(e@),
            None => exec_in(lines(text@)) is None,
        },
{
    let t = chars_of(text);
    let ls = split_lines(&t);
    let ghost all = char_views(ls@);
    let prefix = chars_of("Exec=");
    assert(all.skip(0) =~= all);
    let mut i: usize = 0;
    while i < ls.len()
        invariant
            i <= ls@.len(),
            all == char_views(ls@),
            all == lines(text@),
            prefix@ == "Exec="@,
            exec_in(all) == exec_in(all.skip(i as int)),
        decreases ls@.len() - i,
    {
        let ghost rest = all.skip(i as int);
        assert(rest[0] == ls@[i as int]@);
        assert(rest.drop_first() =~= all.skip(i as int + 1));
        let line = trim_chars(ls[i].as_slice());
        if has_prefix(&line, &prefix) {
            let v = sub_chars(&line, prefix.len(), line.len());
            assert(v@ =~= trim(rest[0]).skip("Exec="@.len() as int));
            return Some(string_of(&v));
        }
        i += 1;
    }
    assert(all.skip(all.len() as int) =~= Seq::<Seq<char>>::empty());
    None
}

/// The text of the desktop entry for the AppImage at `appimage` with the
/// icon at `icon`.
pub open spec fn entry_text(appimage: Seq<char>, icon: Seq<char>) -> Seq<char> {
    "[Desktop Entry]\nName=Silo\nExec="@ + appimage + "\nIcon="@ + icon
        + "\nType=Application\nCategories=Utility;\nTerminal=false\nComment=Silo and Sync data\n"@
}

/// The desktop entry text.
pub fn desktop_entry_text(appimage: &str, icon: &str) -> (r: String)
    ensures
        r@ == entry_text(appimage@, icon@),
{
    let mut v = chars_of("[Desktop Entry]\nName=Silo\nExec=");
    let a = chars_of(appimage);
    extend_chars(&mut v, &a);
    let m = chars_of("\nIcon=");
    extend_chars(&mut v, &m);
    let ic = chars_of(icon);
    extend_chars(&mut v, &ic);
    let tail = chars_of("\nType=Application\nCategories=Utility;\nTerminal=false\nComment=Silo and Sync data\n");
    extend_chars(&mut v, &tail);
    string_of(&v)
}

/// The entry to write, given the text of the existing entry (`None` when it
/// is missing or unreadable): nothing when its `Exec=` value already names
/// the AppImage, and the fresh entry otherwise.
pub open spec fn entry_update_of(existing: Option<Seq<char>>, appimage: Seq<char>, icon: Seq<char>) -> Option<Seq<char>> {
    let current = match existing {
        Some(t) => exec_in(lines(t)),
        None => None,
    };
    if current == Some(appimage) {
        None
    } else {
        Some(entry_text(appimage, icon))
    }
}

/// Decide whether the desktop entry must be written, and with what text.
pub fn entry_update(existing: Option<&str>, appimage: &str, icon: &str) -> (r: Option<String>)
    ensures
        match r {
            Some(t) => entry_update_of(
                match existing { Some(e) => Some(e@), None => None },
                appimage@,
                icon@,
            ) == Some(t@),
            None => entry_update_of(
                match existing { Some(e) => Some(e@), None => None },
                appimage@,
                icon@,
            ) is None,
        },
{
    let current = match existing {
        Some(t) => exec_from_desktop(t),
        None => None,
    };
    let same = match &current {
        Some(c) => {
            let cc = chars_of(c.as_str());
            let ac = chars_of(appimage);
            chars_eq(&cc, &ac)
        },
        None => false,
    };
    if same {
        None
    } else {
        Some(desktop_entry_text(appimage, icon))
    }
}

} // verus!

verus! {

proof fn lemma_plain_line(l: Seq<char>)
    requires
        l.len() > 0,
        !is_ws(l[0]),
        !is_ws(l.last()),
    ensures
        trim(l) == l,
        strip_cr(l) == l,
{
    assert(ws_prefix_len(l) == 0);
    assert(trim_start(l) =~= l);
    assert(ws_suffix_len(l) == 0);
    assert(trim_end(l) =~= l);
}

proof fn lemma_no_newline(l: Seq<char>)
    requires
        forall|i: int| 0 <= i < l.len() ==> l[i] != '\n',
    ensures
        !l.contains('\n'),
{
}

/// An entry written for an AppImage is current for it: the next launch
/// reads back the same `Exec=` value and leaves the entry untouched. This
/// holds for every AppImage path without a line break and without trailing
/// whitespace (the entry is read back line by line, each line trimmed).
pub proof fn lemma_written_entry_is_current(appimage: Seq<char>, icon: Seq<char>)
    requires
        !appimage.contains('\n'),
        appimage.len() == 0 || !is_ws(appimage.last()),
    ensures
        exec_in(lines(entry_text(appimage, icon))) == Some(appimage),
        entry_update_of(Some(entry_text(appimage, icon)), appimage, icon) is None,
{
    reveal_strlit("[Desktop Entry]\nName=Silo\nExec=");
    reveal_strlit("\nIcon=");
    reveal_strlit("\nType=Application\nCategories=Utility;\nTerminal=false\nComment=Silo and Sync data\n");
    reveal_strlit("Exec=");
    let x0: Seq<char> = seq!['[', 'D', 'e', 's', 'k', 't', 'o', 'p', ' ', 'E', 'n', 't', 'r', 'y', ']'];
    let x1: Seq<char> = seq!['N', 'a', 'm', 'e', '=', 'S', 'i', 'l', 'o'];
    let ex: Seq<char> = seq!['E', 'x', 'e', 'c', '='];
    assert("Exec="@ =~= ex);
    let x2 = ex + appimage;
    let tail: Seq<char> = "\nType=Application\nCategories=Utility;\nTerminal=false\nComment=Silo and Sync data\n"@;
    let rest = seq!['I', 'c', 'o', 'n', '='] + icon + tail;
    let text = entry_text(appimage, icon);
    assert(text =~= x0 + seq!['\n'] + (x1 + seq!['\n'] + (x2 + seq!['\n'] + rest)));
    lemma_no_newline(x0);
    lemma_no_newline(x1);
    assert(!x2.contains('\n')) by {
        if x2.contains('\n') {
            let k = choose|k: int| 0 <= k < x2.len() && x2[k] == '\n';
            if k >= 5 {
                assert(appimage[k - 5] == '\n');
            }
        }
    }
    lemma_pieces_single(x0);
    lemma_pieces_single(x1);
    lemma_pieces_single(x2);
    lemma_pieces_split(x2, rest);
    lemma_pieces_split(x1, x2 + seq!['\n'] + rest);
    lemma_pieces_split(x0, x1 + seq!['\n'] + (x2 + seq!['\n'] + rest));
    lemma_pieces_nonempty(rest);
    let p = newline_pieces(text);
    assert(p == seq![x0] + (seq![x1] + (seq![x2] + newline_pieces(rest))));
    assert(p.len() >= 4);
    assert(p[0] == x0 && p[1] == x1 && p[2] == x2);
    assert(text.last() == '\n');
    let ls = lines(text);
    assert(ls == p.take(p.len() - 1).map_values(|l: Seq<char>| strip_cr(l)));
    lemma_plain_line(x0);
    lemma_plain_line(x1);
    assert(x2.last() == if appimage.len() == 0 { '=' } else { appimage.last() });
    lemma_plain_line(x2);
    assert(ls[0] == x0 && ls[1] == x1 && ls[2] == x2);
    assert(!starts_with(trim(ls[0]), "Exec="@)) by {
        assert(x0.take(5)[0] != ex[0]);
    }
    assert(!starts_with(trim(ls.drop_first()[0]), "Exec="@)) by {
        assert(x1.take(5)[0] != ex[0]);
    }
    let l2 = ls.drop_first().drop_first();
    assert(l2[0] == x2);
    assert(starts_with(trim(l2[0]), "Exec="@)) by {
        assert(x2.take(5) =~= ex);
    }
    assert(trim(l2[0]).skip("Exec="@.len() as int) =~= appimage);
    assert(ls.len() >= 3);
    assert(exec_in(l2) == Some(appimage));
    assert(exec_in(ls.drop_first()) == exec_in(l2));
    assert(exec_in(ls) == exec_in(ls.drop_first()));
}

} // verus!
