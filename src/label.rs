//! Labels, UUIDs and partition UUIDs of filesystems, from the symlinks of
//! `/dev/disk/by-label`, `/dev/disk/by-uuid` and `/dev/disk/by-partuuid`.

use vstd::prelude::*;

use crate::text::{chars_of, decode_escapes, decode_string, starts_with};

verus! {

/// the labelling of a file-system, that
/// is the pair (label, fs)
#[derive(Debug, Clone)]
pub struct Labelling {
    pub label: String,
    pub fs_name: String,
}

/// Index of the first labelling of `fs_name`, or the number of labellings.
pub open spec fn first_labelling(ls: Seq<Labelling>, fs_name: Seq<char>) -> int
    decreases ls.len(),
{
    if ls.len() == 0 {
        0
    } else if ls[0].fs_name@ == fs_name {
        0
    } else {
        1 + first_labelling(ls.drop_first(), fs_name)
    }
}

/// The label of the first labelling of `fs_name`, if any.
pub open spec fn label_of(fs_name: Seq<char>, labellings: Option<Seq<Labelling>>) -> Option<
    Seq<char>,
> {
    match labellings {
        Some(ls) => {
            let i = first_labelling(ls, fs_name);
            if 0 <= i < ls.len() {
                Some(ls[i].label@)
            } else {
                None
            }
        },
        None => None,
    }
}

pub open spec fn slice_view(o: Option<&[Labelling]>) -> Option<Seq<Labelling>> {
    match o {
        Some(s) => Some(s@),
        None => None,
    }
}

pub open spec fn opt_string_view(o: Option<String>) -> Option<Seq<char>> {
    match o {
        Some(s) => Some(s@),
        None => None,
    }
}

proof fn lemma_first_labelling(ls: Seq<Labelling>, fs_name: Seq<char>, j: int)
    requires
        0 <= j <= ls.len(),
        forall|k: int| 0 <= k < j ==> ls[k].fs_name@ != fs_name,
        j == ls.len() || ls[j].fs_name@ == fs_name,
    ensures
        first_labelling(ls, fs_name) == j,
    decreases ls.len(),
{
    if ls.len() > 0 && ls[0].fs_name@ != fs_name {
        lemma_first_labelling(ls.drop_first(), fs_name, j - 1);
    }
}

/// The label of the first labelling of `fs_name`, if any.
pub fn get_label(fs_name: &str, labellings: Option<&[Labelling]>) -> (r: Option<String>)
    ensures
        opt_string_view(r) == label_of(fs_name@, slice_view(labellings)),
{
    match labellings {
        None => None,
        Some(ls) => {
            let name = fs_name.to_owned();
            let mut i: usize = 0;
            while i < ls.len()
                invariant
                    i <= ls@.len(),
                    name@ == fs_name@,
                    slice_view(labellings) == Some(ls@),
                    forall|k: int| 0 <= k < i ==> ls@[k].fs_name@ != fs_name@,
                decreases ls.len() - i,
            {
                if ls[i].fs_name == name {
                    proof {
                        lemma_first_labelling(ls@, fs_name@, i as int);
                    }
                    let label = ls[i].label.clone();
                    assert(label@ == ls@[i as int].label@);
                    return Some(label);
                }
                i += 1;
            }
            proof {
                lemma_first_labelling(ls@, fs_name@, i as int);
            }
            None
        },
    }
}

/// The labelling that a `/dev/disk/by-*` symlink stands for: its decoded name
/// is the label, and a target `../../<dev>` names the device `/dev/<dev>`.
/// A target of another form gives none.
pub fn labelling_of_link(link_name: &str, target: &str) -> (r: Option<Labelling>)
    ensures
        r is Some <==> (6 <= target@.len() && target@.take(6) == "../../"@),
        r is Some ==> r->0.label@ == decode_escapes(link_name@) && r->0.fs_name@ == "/dev/"@
            + target@.skip(6),
{
    let t = chars_of(target);
    proof {
        reveal_strlit("../../");
    }
    if !starts_with(&t, "../../") {
        return None;
    }
    let label = decode_string(link_name);
    let mut fs_name = "/dev/".to_owned();
    fs_name.append(target.substring_char(6, t.len()));
    assert(target@.subrange(6, target@.len() as int) == target@.skip(6));
    Some(Labelling { label, fs_name })
}

} // verus!
