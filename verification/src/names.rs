use vstd::prelude::*;
use crate::text::{chars_of, same_text};

verus! {

/// Whether a file name starts with the dot that marks a hidden entry.
pub open spec fn is_hidden(name: Seq<char>) -> bool {
    name.len() > 0 && name[0] == '.'
}

/// Whether a file name is that of the folder-metadata file.
pub open spec fn is_metadata_file(name: Seq<char>) -> bool {
    name == "desktop.ini"@
}

/// Whether a directory entry of this name is passed over whatever it is.
pub open spec fn is_noise(name: Seq<char>) -> bool {
    is_hidden(name) || is_metadata_file(name)
}

/// Position of the last dot of a name, or -1 where it has none.
pub open spec fn last_dot(name: Seq<char>) -> int
    decreases name.len(),
{
    if name.len() == 0 {
        -1
    } else if name.last() == '.' {
        name.len() - 1
    } else {
        last_dot(name.drop_last())
    }
}

/// The extension of a file name: what follows its last dot, where that dot
/// is not its first character.
pub open spec fn extension(name: Seq<char>) -> Option<Seq<char>> {
    if last_dot(name) <= 0 {
        None
    } else {
        Some(name.skip(last_dot(name) + 1))
    }
}

/// The stem of a file name: what stands before the dot of its extension, or
/// the whole name where it has no extension.
pub open spec fn stem(name: Seq<char>) -> Seq<char> {
    if last_dot(name) <= 0 {
        name
    } else {
        name.take(last_dot(name))
    }
}

/// Whether a file of this name is a shortcut or an executable.
pub open spec fn is_launchable(name: Seq<char>) -> bool {
    extension(name) == Some("lnk"@) || extension(name) == Some("exe"@)
}

/// `last_dot` is -1 or the position of a dot behind which no dot follows.
pub proof fn lemma_last_dot(name: Seq<char>)
    ensures
        -1 <= last_dot(name) < name.len(),
        last_dot(name) >= 0 ==> name[last_dot(name)] == '.',
        forall|i: int| last_dot(name) < i < name.len() ==> name[i] != '.',
    decreases name.len(),
{
    if name.len() > 0 && name.last() != '.' {
        let front = name.drop_last();
        lemma_last_dot(front);
        assert forall|i: int| last_dot(name) < i < name.len() implies name[i] != '.' by {
            if i < front.len() {
                assert(front[i] == name[i]);
            }
        }
        if last_dot(name) >= 0 {
            assert(front[last_dot(name)] == name[last_dot(name)]);
        }
    }
}

/// A name is its stem, a dot and its extension, where it has an extension.
pub proof fn lemma_stem_dot_extension(name: Seq<char>)
    requires
        extension(name) is Some,
    ensures
        name == stem(name) + seq!['.'] + extension(name)->0,
        stem(name).len() > 0,
        !extension(name)->0.contains('.'),
{
    lemma_last_dot(name);
    let ext = extension(name)->0;
    assert(name =~= stem(name) + seq!['.'] + ext);
    if ext.contains('.') {
        let i = choose|i: int| 0 <= i < ext.len() && ext[i] == '.';
        assert(name[last_dot(name) + 1 + i] == '.');
    }
}

/// Position of the last dot among the characters, if there is one.
fn find_last_dot(chars: &Vec<char>) -> (r: Option<usize>)
    ensures
        match r {
            Some(d) => d == last_dot(chars@),
            None => last_dot(chars@) == -1,
        },
{
    let mut i: usize = chars.len();
    assert(chars@.take(i as int) =~= chars@);
    while i > 0
        invariant
            i <= chars@.len(),
            last_dot(chars@) == last_dot(chars@.take(i as int)),
        decreases i,
    {
        proof {
            let head = chars@.take(i as int);
            assert(head.last() == chars@[i - 1]);
            assert(head.drop_last() =~= chars@.take(i - 1));
        }
        if chars[i - 1] == '.' {
            return Some(i - 1);
        }
        i = i - 1;
    }
    None
}

/// Whether a directory entry of this name is passed over: a hidden entry or
/// the folder-metadata file.
pub fn noise(name: &str) -> (r: bool)
    ensures
        r == is_noise(name@),
{
    let chars = chars_of(name);
    if chars.len() > 0 && chars[0] == '.' {
        return true;
    }
    same_text(name, "desktop.ini")
}

/// Whether a file of this name is a shortcut or an executable: its extension
/// is `lnk` or `exe`, in lower case.
pub fn launchable(name: &str) -> (r: bool)
    ensures
        r == is_launchable(name@),
{
    let chars = chars_of(name);
    match find_last_dot(&chars) {
        Some(d) => {
            if d == 0 {
                return false;
            }
            let len = chars.len();
            proof {
                lemma_last_dot(name@);
                assert(d < len);
                assert(name@.subrange(d + 1, name@.len() as int) =~= name@.skip(d + 1));
            }
            let ext = name.substring_char(d + 1, len);
            same_text(ext, "lnk") || same_text(ext, "exe")
        },
        None => false,
    }
}

/// The display name of a file: its name without the extension.
pub fn file_stem(name: &str) -> (r: String)
    ensures
        r@ == stem(name@),
{
    let chars = chars_of(name);
    match find_last_dot(&chars) {
        Some(d) => {
            if d == 0 {
                return name.to_owned();
            }
            proof {
                lemma_last_dot(name@);
                assert(name@.subrange(0, d as int) =~= name@.take(d as int));
            }
            name.substring_char(0, d).to_owned()
        },
        None => name.to_owned(),
    }
}

} // verus!
