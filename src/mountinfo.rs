//! Entries of the mount table, and the parser of its lines.

use vstd::prelude::*;

use crate::device_id::{parse_device_id, DeviceId};
use crate::text::{
    chars_of, contains_char, decode_chars, decode_escapes, find_char, index_of, parse_u32,
    push_char, same_chars, split_chars, split_on, starts_with, string_of, trim, trim_chars,
    u32_value, views, ws_split, ws_tokens,
};

verus! {

/// An id of a mount.
pub type MountId = u32;

/// A mount option: a name, with or without a value.
#[derive(Debug, Clone, PartialEq)]
pub struct MountOption {
    pub name: String,
    pub value: Option<String>,
}

/// The mathematical form of a mount option: its name and its value.
pub type OptionSpec = (Seq<char>, Option<Seq<char>>);

pub open spec fn opt_str_view(o: Option<String>) -> Option<Seq<char>> {
    match o {
        Some(s) => Some(s@),
        None => None,
    }
}

impl View for MountOption {
    type V = OptionSpec;

    open spec fn view(&self) -> OptionSpec {
        (self.name@, opt_str_view(self.value))
    }
}

pub open spec fn options_view(v: Seq<MountOption>) -> Seq<OptionSpec> {
    v.map_values(|o: MountOption| o@)
}

impl MountOption {
    /// A copy of this option.
    pub fn duplicate(&self) -> (r: Self)
        ensures
            r@ == self@,
    {
        let value = match &self.value {
            Some(v) => Some(v.clone()),
            None => None,
        };
        MountOption { name: self.name.clone(), value }
    }
}

/// A mount point as described by one line of the mount table.
#[derive(Debug, Clone)]
pub struct MountInfo {
    pub id: Option<MountId>,
    pub parent: Option<MountId>,
    pub dev: DeviceId,
    pub root: String,
    pub mount_point: String,
    pub options: Vec<MountOption>,
    pub fs: String,
    pub fs_type: String,
    /// whether it's a bound mount (usually mirroring part of another device)
    pub bound: bool,
}

/// The mathematical form of a mount entry.
pub struct MountInfoSpec {
    pub id: Option<MountId>,
    pub parent: Option<MountId>,
    pub dev: DeviceId,
    pub root: Seq<char>,
    pub mount_point: Seq<char>,
    pub options: Seq<OptionSpec>,
    pub fs: Seq<char>,
    pub fs_type: Seq<char>,
    pub bound: bool,
}

impl View for MountInfo {
    type V = MountInfoSpec;

    open spec fn view(&self) -> MountInfoSpec {
        MountInfoSpec {
            id: self.id,
            parent: self.parent,
            dev: self.dev,
            root: self.root@,
            mount_point: self.mount_point@,
            options: options_view(self.options@),
            fs: self.fs@,
            fs_type: self.fs_type@,
            bound: self.bound,
        }
    }
}

/// A line that is not a mount-table entry.
#[derive(Debug, Clone)]
pub struct ParseMountInfoError {
    pub line: String,
}

/// The option that one comma-separated piece stands for: the name runs to the
/// first `=`, the value from there to the next `=` or the end.
pub open spec fn option_of_segment(seg: Seq<char>) -> OptionSpec {
    let i = index_of(seg, '=');
    if i < seg.len() {
        let rest = seg.skip(i + 1);
        (seg.take(i), Some(rest.take(index_of(rest, '='))))
    } else {
        (seg, None)
    }
}

/// The options of a list of pieces: empty pieces and pieces starting with `=`
/// stand for none.
pub open spec fn options_of_segments(segs: Seq<Seq<char>>) -> Seq<OptionSpec>
    decreases segs.len(),
{
    if segs.len() == 0 {
        seq![]
    } else {
        let r = options_of_segments(segs.drop_last());
        let seg = segs.last();
        if seg.len() > 0 && seg[0] != '=' {
            r.push(option_of_segment(seg))
        } else {
            r
        }
    }
}

/// The options written in a comma-separated option token.
pub open spec fn parse_options(tok: Seq<char>) -> Seq<OptionSpec> {
    options_of_segments(split_on(tok, ','))
}

pub open spec fn has_name(opts: Seq<OptionSpec>, name: Seq<char>) -> bool {
    exists|i: int| 0 <= i < opts.len() && (#[trigger] opts[i]).0 == name
}

/// `acc` followed by the options of `new` whose name is not yet present.
pub open spec fn merge_options(acc: Seq<OptionSpec>, new: Seq<OptionSpec>) -> Seq<OptionSpec>
    decreases new.len(),
{
    if new.len() == 0 {
        acc
    } else {
        let m = merge_options(acc, new.drop_last());
        if has_name(m, new.last().0) {
            m
        } else {
            m.push(new.last())
        }
    }
}

/// The options other than `rw`.
pub open spec fn without_rw(opts: Seq<OptionSpec>) -> Seq<OptionSpec>
    decreases opts.len(),
{
    if opts.len() == 0 {
        opts
    } else {
        let r = without_rw(opts.drop_last());
        if opts.last().0 == seq!['r', 'w'] {
            r
        } else {
            r.push(opts.last())
        }
    }
}

/// Index of the first `-` token at or after `i`, or the number of tokens.
pub open spec fn dash_from(t: Seq<Seq<char>>, i: int) -> int
    decreases t.len() - i,
{
    if i < 0 || i >= t.len() {
        t.len() as int
    } else if t[i] == seq!['-'] {
        i
    } else {
        dash_from(t, i + 1)
    }
}

/// The entry that a mount-table line stands for:
/// `id parent major:minor root mount_point options [tag:value...] - fs_type source [super_options]`.
#[verifier::opaque]
pub open spec fn parse_mount_line(s: Seq<char>) -> Option<MountInfoSpec> {
    let t = ws_tokens(s);
    let k = dash_from(t, 6);
    if k + 2 < t.len() && u32_value(t[0]) is Some && u32_value(t[1]) is Some && parse_device_id(
        t[2],
    ) is Some {
        let direct = merge_options(seq![], parse_options(t[5]));
        let options = if k + 3 < t.len() {
            merge_options(direct, without_rw(parse_options(t[k + 3])))
        } else {
            direct
        };
        Some(
            MountInfoSpec {
                id: Some(u32_value(t[0])->0),
                parent: Some(u32_value(t[1])->0),
                dev: parse_device_id(t[2])->0,
                root: decode_escapes(t[3]),
                mount_point: decode_escapes(t[4]),
                options,
                fs: t[k + 2],
                fs_type: t[k + 1],
                bound: false,
            },
        )
    } else {
        None
    }
}

proof fn lemma_dash_from(t: Seq<Seq<char>>, i: int, k: int)
    requires
        0 <= i <= k <= t.len(),
        forall|j: int| i <= j < k ==> t[j] != seq!['-'],
        k == t.len() || t[k] == seq!['-'],
    ensures
        dash_from(t, i) == k,
    decreases k - i,
{
    if i < k {
        lemma_dash_from(t, i + 1, k);
    }
}

fn option_from_segment(seg: &Vec<char>) -> (r: MountOption)
    ensures
        r@ == option_of_segment(seg@),
{
    let i = find_char(seg, 0, '=');
    assert(seg@.skip(0) == seg@);
    if i < seg.len() {
        let k = find_char(seg, i + 1, '=');
        let ghost rest = seg@.skip(i + 1);
        assert(rest.take(index_of(rest, '=')) == seg@.subrange(i + 1, k as int));
        assert(seg@.take(i as int) == seg@.subrange(0, i as int));
        MountOption { name: string_of(seg, 0, i), value: Some(string_of(seg, i + 1, k)) }
    } else {
        assert(seg@.subrange(0, seg.len() as int) == seg@);
        MountOption { name: string_of(seg, 0, seg.len()), value: None }
    }
}

/// The options written in a comma-separated option token.
fn options_from_token(tok: &Vec<char>) -> (r: Vec<MountOption>)
    ensures
        options_view(r@) == parse_options(tok@),
{
    let segs = split_chars(tok, ',');
    let ghost ss = split_on(tok@, ',');
    let mut r: Vec<MountOption> = Vec::new();
    let mut j: usize = 0;
    while j < segs.len()
        invariant
            j <= segs.len(),
            views(segs@) == ss,
            options_view(r@) == options_of_segments(ss.take(j as int)),
        decreases segs.len() - j,
    {
        let seg = &segs[j];
        assert(seg@ == ss[j as int]);
        assert(ss.take(j + 1).drop_last() == ss.take(j as int));
        let ghost prev = r@;
        if seg.len() > 0 && seg[0] != '=' {
            let o = option_from_segment(seg);
            r.push(o);
            assert(options_view(r@) == options_view(prev).push(o@));
        }
        j += 1;
    }
    assert(ss.take(j as int) == ss);
    r
}

/// Whether one of `opts` has the given name.
fn has_named(opts: &Vec<MountOption>, name: &String) -> (r: bool)
    ensures
        r == has_name(options_view(opts@), name@),
{
    let mut i: usize = 0;
    while i < opts.len()
        invariant
            i <= opts.len(),
            forall|j: int| 0 <= j < i ==> opts@[j].name@ != name@,
        decreases opts.len() - i,
    {
        if opts[i].name == *name {
            assert(options_view(opts@)[i as int].0 == name@);
            return true;
        }
        i += 1;
    }
    assert forall|j: int| 0 <= j < opts.len() implies (#[trigger] options_view(opts@)[j]).0
        != name@ by {
        assert(options_view(opts@)[j] == opts@[j]@);
    }
    false
}

/// Adds to `acc` the options of `new` whose name is not yet present, leaving
/// out `rw` when `skip_rw` holds.
fn merge_into(acc: &mut Vec<MountOption>, new: Vec<MountOption>, skip_rw: bool)
    ensures
        skip_rw ==> options_view(final(acc)@) == merge_options(
            options_view(old(acc)@),
            without_rw(options_view(new@)),
        ),
        !skip_rw ==> options_view(final(acc)@) == merge_options(
            options_view(old(acc)@),
            options_view(new@),
        ),
{
    let ghost a0 = options_view(acc@);
    let ghost nv = options_view(new@);
    let mut j: usize = 0;
    while j < new.len()
        invariant
            j <= new.len(),
            nv == options_view(new@),
            skip_rw ==> options_view(acc@) == merge_options(a0, without_rw(nv.take(j as int))),
            !skip_rw ==> options_view(acc@) == merge_options(a0, nv.take(j as int)),
        decreases new.len() - j,
    {
        let o = &new[j];
        let ghost prev = acc@;
        assert(nv.take(j + 1).drop_last() == nv.take(j as int));
        assert(nv.take(j + 1).last() == o@);
        let is_rw = o.name.as_str().unicode_len() == 2 && o.name.as_str().get_char(0) == 'r'
            && o.name.as_str().get_char(1) == 'w';
        assert(is_rw == (o@.0 == seq!['r', 'w'])) by {
            if o@.0 == seq!['r', 'w'] {
                assert(o.name@.len() == 2);
            }
            if is_rw {
                assert(o.name@ == seq!['r', 'w']);
            }
        }
        proof {
            let w = without_rw(nv.take(j as int));
            if is_rw {
                assert(without_rw(nv.take(j + 1)) == w);
            } else {
                assert(without_rw(nv.take(j + 1)) == w.push(o@));
                assert(w.push(o@).drop_last() == w);
            }
        }
        if !(skip_rw && is_rw) {
            if !has_named(acc, &o.name) {
                acc.push(o.duplicate());
                assert(options_view(acc@) == options_view(prev).push(o@));
            }
        }
        j += 1;
    }
    assert(nv.take(j as int) == nv);
}

impl MountOption {
    pub fn new(name: &str, value: Option<&str>) -> (r: Self)
        ensures
            r.name@ == name@,
            r.value is Some <==> value is Some,
            value is Some ==> r.value->0@ == value->0@,
    {
        let value = match value {
            Some(v) => Some(v.to_owned()),
            None => None,
        };
        MountOption { name: name.to_owned(), value }
    }
}

impl MountInfo {
    /// Reads one line of the mount table.
    pub fn from_str(line: &str) -> (r: Result<Self, ParseMountInfoError>)
        ensures
            parse_mount_line(line@) is Some ==> r is Ok && r->Ok_0@ == parse_mount_line(line@)->0,
            parse_mount_line(line@) is None ==> r is Err && r->Err_0.line@ == line@,
    {
        let chars = chars_of(line);
        match Self::from_chars(&chars) {
            Some(info) => Ok(info),
            None => Err(ParseMountInfoError { line: line.to_owned() }),
        }
    }

    /// Reads one line of the mount table from its characters.
    pub fn from_chars(chars: &Vec<char>) -> (r: Option<Self>)
        ensures
            parse_mount_line(chars@) is Some ==> r is Some && r->0@ == parse_mount_line(chars@)->0,
            parse_mount_line(chars@) is None ==> r is None,
    {
        reveal(parse_mount_line);
        let tokens = ws_split(chars);
        let ghost t = ws_tokens(chars@);
        assert(views(tokens@).len() == tokens@.len());
        assert forall|i: int| 0 <= i < tokens.len() implies #[trigger] tokens@[i]@ == t[i] by {
            assert(views(tokens@)[i] == tokens@[i]@);
        }
        let mut k: usize = 6;
        while k < tokens.len() && !(tokens[k].len() == 1 && tokens[k][0] == '-')
            invariant
                6 <= k,
                k <= tokens.len() || tokens.len() < 6,
                forall|j: int| 6 <= j < k ==> t[j] != seq!['-'],
                forall|i: int| 0 <= i < tokens.len() ==> #[trigger] tokens@[i]@ == t[i],
                t.len() == tokens.len(),
            decreases tokens.len() - k,
        {
            assert(tokens@[k as int]@ == t[k as int]);
            assert(t[k as int] != seq!['-']) by {
                if t[k as int] == seq!['-'] {
                    assert(tokens[k as int]@.len() == 1);
                }
            }
            k += 1;
        }
        if tokens.len() < 6 || k >= tokens.len() || tokens.len() - k < 3 {
            proof {
                if tokens.len() >= 6 {
                    if k < tokens.len() {
                        assert(tokens[k as int]@ == seq!['-']);
                    }
                    lemma_dash_from(t, 6, k as int);
                }
            }
            return None;
        }
        assert(tokens[k as int]@ == seq!['-']);
        proof {
            lemma_dash_from(t, 6, k as int);
        }
        let id = parse_u32(&tokens[0]);
        let parent = parse_u32(&tokens[1]);
        let dev = DeviceId::from_chars(&tokens[2]);
        if id.is_none() || parent.is_none() || dev.is_none() {
            return None;
        }
        let root_chars = decode_chars(&tokens[3]);
        let root = string_of(&root_chars, 0, root_chars.len());
        let mp_chars = decode_chars(&tokens[4]);
        let mount_point = string_of(&mp_chars, 0, mp_chars.len());
        assert(root_chars@.subrange(0, root_chars.len() as int) == root_chars@);
        assert(mp_chars@.subrange(0, mp_chars.len() as int) == mp_chars@);
        let mut options: Vec<MountOption> = Vec::new();
        assert(options_view(options@) == Seq::<OptionSpec>::empty());
        merge_into(&mut options, options_from_token(&tokens[5]), false);
        assert(tokens[5]@ == t[5]);
        let ghost direct = merge_options(seq![], parse_options(t[5]));
        assert(options_view(options@) == direct);
        if tokens.len() - k > 3 {
            merge_into(&mut options, options_from_token(&tokens[k + 3]), true);
            assert(tokens[k + 3]@ == t[k + 3]);
        }
        let fs_type = string_of(&tokens[k + 1], 0, tokens[k + 1].len());
        let fs = string_of(&tokens[k + 2], 0, tokens[k + 2].len());
        assert(tokens[k + 1]@.subrange(0, tokens[k + 1]@.len() as int) == tokens[k + 1]@);
        assert(tokens[k + 2]@.subrange(0, tokens[k + 2]@.len() as int) == tokens[k + 2]@);
        let info = MountInfo {
            id,
            parent,
            dev: dev.unwrap(),
            root,
            mount_point,
            options,
            fs,
            fs_type,
            bound: false,
        };
        Some(info)
    }
}

/// `<name>` when `fs` is `/dev/mapper/<name>` (a non-empty name without `/`).
pub open spec fn dm_name_of(fs: Seq<char>) -> Option<Seq<char>> {
    let p = "/dev/mapper/"@;
    if fs.len() > p.len() && fs.take(p.len() as int) == p && !fs.skip(p.len() as int).contains(
        '/',
    ) {
        Some(fs.skip(p.len() as int))
    } else {
        None
    }
}

pub open spec fn is_sep(c: char) -> bool {
    c == '/' || c == '\\'
}

/// Position just after the last `/` or `\\` of `s`, or 0 when there is none.
pub open spec fn last_sep_end(s: Seq<char>) -> int
    decreases s.len(),
{
    if s.len() == 0 {
        0
    } else if is_sep(s.last()) {
        s.len() as int
    } else {
        last_sep_end(s.drop_last())
    }
}

/// The last segment of a path, when it is not empty.
pub open spec fn leaf_name_of(s: Seq<char>) -> Option<Seq<char>> {
    let i = last_sep_end(s);
    if i < s.len() {
        Some(s.skip(i))
    } else {
        None
    }
}

/// Filesystem types that are always remote.
pub open spec fn is_remote_only_type(t: Seq<char>) -> bool {
    t == "afs"@ || t == "coda"@ || t == "auristorfs"@ || t == "fhgfs"@ || t == "gpfs"@ || t
        == "ibrix"@ || t == "ocfs2"@ || t == "vxfs"@
}

/// Filesystem types that are remote when the source starts with `//`.
pub open spec fn is_share_type(t: Seq<char>) -> bool {
    t == "cifs"@ || t == "smb3"@ || t == "smbfs"@
}

/// Whether a mount with this source and filesystem type looks remote.
pub open spec fn looks_remote(fs: Seq<char>, fs_type: Seq<char>) -> bool {
    fs.contains(':') || (fs.len() >= 2 && fs[0] == '/' && fs[1] == '/' && is_share_type(fs_type))
        || is_remote_only_type(fs_type) || fs == "-hosts"@
}

/// `name` or `name=value`.
pub open spec fn option_text(o: OptionSpec) -> Seq<char> {
    match o.1 {
        Some(v) => o.0 + seq!['='] + v,
        None => o.0,
    }
}

/// The options written as in the mount table, separated by commas.
pub open spec fn options_text(opts: Seq<OptionSpec>) -> Seq<char>
    decreases opts.len(),
{
    if opts.len() == 0 {
        seq![]
    } else if opts.len() == 1 {
        option_text(opts[0])
    } else {
        options_text(opts.drop_last()) + seq![','] + option_text(opts.last())
    }
}

/// Index of the first option with this name, or the number of options.
pub open spec fn first_named(opts: Seq<OptionSpec>, name: Seq<char>) -> int
    decreases opts.len(),
{
    if opts.len() == 0 {
        0
    } else if opts[0].0 == name {
        0
    } else {
        1 + first_named(opts.drop_first(), name)
    }
}

/// The value of the first option with this name.
pub open spec fn option_value_of(opts: Seq<OptionSpec>, name: Seq<char>) -> Option<Seq<char>> {
    let i = first_named(opts, name);
    if 0 <= i < opts.len() {
        opts[i].1
    } else {
        None
    }
}

proof fn lemma_first_named(opts: Seq<OptionSpec>, name: Seq<char>, j: int)
    requires
        0 <= j <= opts.len(),
        forall|k: int| 0 <= k < j ==> opts[k].0 != name,
        j == opts.len() || opts[j].0 == name,
    ensures
        first_named(opts, name) == j,
    decreases opts.len(),
{
    if opts.len() > 0 && opts[0].0 != name {
        lemma_first_named(opts.drop_first(), name, j - 1);
    }
}

proof fn lemma_last_sep_end(s: Seq<char>, j: int)
    requires
        0 <= j <= s.len(),
        forall|k: int| j <= k < s.len() ==> !is_sep(s[k]),
        j == 0 || is_sep(s[j - 1]),
    ensures
        last_sep_end(s) == j,
    decreases s.len(),
{
    if s.len() > 0 && !is_sep(s.last()) {
        lemma_last_sep_end(s.drop_last(), j);
    }
}

impl MountInfo {
    /// `<name>` when the source is `/dev/mapper/<name>`.
    pub fn dm_name(&self) -> (r: Option<&str>)
        ensures
            r is Some <==> dm_name_of(self.fs@) is Some,
            r is Some ==> r->0@ == dm_name_of(self.fs@)->0,
    {
        let v = chars_of(self.fs.as_str());
        proof {
            reveal_strlit("/dev/mapper/");
        }
        if v.len() > 12 && starts_with(&v, "/dev/mapper/") {
            let k = find_char(&v, 12, '/');
            if k == v.len() {
                assert(!v@.skip(12).contains('/')) by {
                    assert forall|i: int| 0 <= i < v@.skip(12).len() implies v@.skip(12)[i]
                        != '/' by {
                        assert(v@.skip(12)[i] == v@[i + 12]);
                    }
                }
                return Some(self.fs.as_str().substring_char(12, v.len()));
            } else {
                assert(v@.skip(12)[k - 12] == '/');
            }
        }
        None
    }

    /// The last segment of the source path, when it is not empty.
    pub fn fs_name(&self) -> (r: Option<&str>)
        ensures
            r is Some <==> leaf_name_of(self.fs@) is Some,
            r is Some ==> r->0@ == leaf_name_of(self.fs@)->0,
    {
        let v = chars_of(self.fs.as_str());
        let mut j = v.len();
        while j > 0 && !(v[j - 1] == '/' || v[j - 1] == '\\')
            invariant
                j <= v.len(),
                forall|k: int| j <= k < v.len() ==> !is_sep(v@[k]),
            decreases j,
        {
            j -= 1;
        }
        proof {
            lemma_last_sep_end(v@, j as int);
        }
        if j < v.len() {
            Some(self.fs.as_str().substring_char(j, v.len()))
        } else {
            None
        }
    }

    /// Whether the mount looks remote: its source holds a `:`, or is a `//`
    /// share of a network filesystem type, or its type is always remote, or
    /// the source is `-hosts`.
    pub fn is_remote(&self) -> (r: bool)
        ensures
            r == looks_remote(self.fs@, self.fs_type@),
    {
        let fs = chars_of(self.fs.as_str());
        let t = chars_of(self.fs_type.as_str());
        let share = same_chars(&t, "cifs") || same_chars(&t, "smb3") || same_chars(&t, "smbfs");
        let remote_only = same_chars(&t, "afs") || same_chars(&t, "coda") || same_chars(
            &t,
            "auristorfs",
        ) || same_chars(&t, "fhgfs") || same_chars(&t, "gpfs") || same_chars(&t, "ibrix")
            || same_chars(&t, "ocfs2") || same_chars(&t, "vxfs");
        contains_char(&fs, ':') || (fs.len() >= 2 && fs[0] == '/' && fs[1] == '/' && share)
            || remote_only || same_chars(&fs, "-hosts")
    }

    /// The options as written in the mount table, e.g. `rw,noatime,compress=zstd:3`.
    pub fn options_string(&self) -> (r: String)
        ensures
            r@ == options_text(options_view(self.options@)),
    {
        let ghost opts = options_view(self.options@);
        let mut s = String::new();
        let mut i: usize = 0;
        while i < self.options.len()
            invariant
                i <= self.options.len(),
                opts == options_view(self.options@),
                s@ == options_text(opts.take(i as int)),
            decreases self.options.len() - i,
        {
            let o = &self.options[i];
            assert(opts[i as int] == o@);
            assert(opts.take(i + 1).drop_last() == opts.take(i as int));
            if i > 0 {
                push_char(&mut s, ',');
            }
            s.append(o.name.as_str());
            match &o.value {
                Some(v) => {
                    push_char(&mut s, '=');
                    s.append(v.as_str());
                },
                None => {},
            }
            assert(i == 0 ==> opts.take(1)[0] == o@);
            i += 1;
        }
        assert(opts.take(i as int) == opts);
        s
    }

    /// Whether an option of this name (e.g. `compress`, `rw`, `noatime`) is present.
    pub fn has_option(&self, name: &str) -> (r: bool)
        ensures
            r == has_name(options_view(self.options@), name@),
    {
        let n = name.to_owned();
        has_named(&self.options, &n)
    }

    /// The value of the first option of this name, if it has one.
    pub fn option_value(&self, name: &str) -> (r: Option<&str>)
        ensures
            r is Some <==> option_value_of(options_view(self.options@), name@) is Some,
            r is Some ==> r->0@ == option_value_of(options_view(self.options@), name@)->0,
    {
        let ghost opts = options_view(self.options@);
        let n = name.to_owned();
        let mut i: usize = 0;
        while i < self.options.len()
            invariant
                i <= self.options.len(),
                opts == options_view(self.options@),
                n@ == name@,
                forall|k: int| 0 <= k < i ==> opts[k].0 != name@,
            decreases self.options.len() - i,
        {
            assert(opts[i as int] == self.options@[i as int]@);
            if self.options[i].name == n {
                proof {
                    lemma_first_named(opts, name@, i as int);
                }
                return match &self.options[i].value {
                    Some(v) => Some(v.as_str()),
                    None => None,
                };
            }
            i += 1;
        }
        proof {
            lemma_first_named(opts, name@, i as int);
        }
        None
    }
}

/// The lines of a mount table: its text without surrounding whitespace, cut
/// at each newline.
pub open spec fn table_lines(content: Seq<char>) -> Seq<Seq<char>> {
    split_on(trim(content), '\n')
}

/// Device id of line `i` of a mount table, when it parses.
pub open spec fn line_dev(lines: Seq<Seq<char>>, i: int) -> DeviceId {
    parse_mount_line(lines[i])->0.dev
}

/// Entry `i` of a mount table whose lines all parse: the parsed line, bound
/// when an earlier entry has the same device id.
pub open spec fn table_entry(lines: Seq<Seq<char>>, i: int) -> MountInfoSpec {
    let e = parse_mount_line(lines[i])->0;
    MountInfoSpec {
        bound: exists|j: int| 0 <= j < i && #[trigger] line_dev(lines, j) == e.dev,
        ..e
    }
}

/// Whether one of `mounts` has this device id.
fn has_dev(mounts: &Vec<MountInfo>, dev: DeviceId) -> (r: bool)
    ensures
        r == exists|m: int| 0 <= m < mounts.len() && (#[trigger] mounts@[m]).dev == dev,
{
    let mut j: usize = 0;
    while j < mounts.len()
        invariant
            j <= mounts.len(),
            forall|m: int| 0 <= m < j ==> (#[trigger] mounts@[m]).dev != dev,
        decreases mounts.len() - j,
    {
        if mounts[j].dev == dev {
            return true;
        }
        j += 1;
    }
    false
}

/// Reads a whole mount table. Each line must be an entry; an entry is marked
/// bound when an earlier one has the same device id.
pub fn parse_mountinfos(content: &str) -> (r: Result<Vec<MountInfo>, ParseMountInfoError>)
    ensures
        r is Ok <==> forall|i: int|
            0 <= i < table_lines(content@).len() ==> (#[trigger] parse_mount_line(
                table_lines(content@)[i],
            )) is Some,
        r is Ok ==> r->Ok_0.len() == table_lines(content@).len() && forall|i: int|
            0 <= i < table_lines(content@).len() ==> (#[trigger] r->Ok_0[i])@ == table_entry(
                table_lines(content@),
                i,
            ),
        r is Err ==> exists|k: int|
            0 <= k < table_lines(content@).len() && parse_mount_line(table_lines(content@)[k]) is None
                && (forall|i: int|
                0 <= i < k ==> (#[trigger] parse_mount_line(table_lines(content@)[i])) is Some)
                && r->Err_0.line@ == table_lines(content@)[k],
{
    let chars = chars_of(content);
    let trimmed = trim_chars(&chars);
    let lines = split_chars(&trimmed, '\n');
    let ghost ls = table_lines(content@);
    assert(views(lines@) == ls);
    assert(views(lines@).len() == lines@.len());
    let mut mounts: Vec<MountInfo> = Vec::new();
    let mut i: usize = 0;
    while i < lines.len()
        invariant
            i <= lines.len(),
            ls == table_lines(content@),
            ls.len() == lines.len(),
            views(lines@) == ls,
            mounts.len() == i,
            forall|j: int| 0 <= j < i ==> (#[trigger] parse_mount_line(ls[j])) is Some,
            forall|j: int| 0 <= j < i ==> (#[trigger] mounts@[j])@ == table_entry(ls, j),
        decreases lines.len() - i,
    {
        assert(lines@[i as int]@ == views(lines@)[i as int]);
        let parsed = MountInfo::from_chars(&lines[i]);
        if parsed.is_none() {
            let line = string_of(&lines[i], 0, lines[i].len());
            assert(lines@[i as int]@.subrange(0, lines@[i as int]@.len() as int) == ls[i as int]);
            assert(parse_mount_line(ls[i as int]) is None);
            assert(0 <= i < ls.len() && parse_mount_line(ls[i as int]) is None && (forall|j: int|
                0 <= j < i ==> (#[trigger] parse_mount_line(ls[j])) is Some) && line@ == ls[i as int]);
            return Err(ParseMountInfoError { line });
        }
        let mut info = parsed.unwrap();
        let bound = has_dev(&mounts, info.dev);
        proof {
            assert forall|m: int| 0 <= m < i implies (#[trigger] mounts@[m]).dev == line_dev(ls, m) by {
                assert(mounts@[m]@ == table_entry(ls, m));
            }
            if bound {
                let m = choose|m: int| 0 <= m < i && (#[trigger] mounts@[m]).dev == info.dev;
                assert(line_dev(ls, m) == info.dev);
            }
            if exists|m: int| 0 <= m < i && #[trigger] line_dev(ls, m) == info.dev {
                let m = choose|m: int| 0 <= m < i && #[trigger] line_dev(ls, m) == info.dev;
                assert(mounts@[m].dev == info.dev);
            }
        }
        info.bound = bound;
        let ghost prev = mounts@;
        mounts.push(info);
        assert(mounts@[i as int]@ == table_entry(ls, i as int));
        assert forall|j: int| 0 <= j < i implies (#[trigger] mounts@[j])@ == table_entry(ls, j) by {
            assert(mounts@[j] == prev[j]);
        }
        i += 1;
    }
    Ok(mounts)
}

impl std::str::FromStr for MountInfo {
    type Err = ParseMountInfoError;

    fn from_str(line: &str) -> Result<Self, Self::Err> {
        MountInfo::from_str(line)
    }
}

/// No two options share a name.
pub open spec fn names_unique(opts: Seq<OptionSpec>) -> bool {
    forall|i: int, j: int| 0 <= i < j < opts.len() ==> (#[trigger] opts[i]).0 != (#[trigger] opts[j]).0
}

proof fn lemma_merge_unique(acc: Seq<OptionSpec>, new: Seq<OptionSpec>)
    requires
        names_unique(acc),
    ensures
        names_unique(merge_options(acc, new)),
    decreases new.len(),
{
    if new.len() > 0 {
        lemma_merge_unique(acc, new.drop_last());
        let m = merge_options(acc, new.drop_last());
        if !has_name(m, new.last().0) {
            let r = m.push(new.last());
            assert forall|i: int, j: int| 0 <= i < j < r.len() implies (#[trigger] r[i]).0 != (
            #[trigger] r[j]).0 by {
                if j == m.len() {
                    assert(m[i].0 != new.last().0);
                } else {
                    assert(r[i] == m[i] && r[j] == m[j]);
                }
            }
        }
    }
}

/// The options of a parsed mount-table line never repeat a name: the first
/// occurrence of a name is kept, in the direct options as in the super options.
pub proof fn lemma_parsed_options_unique(s: Seq<char>)
    requires
        parse_mount_line(s) is Some,
    ensures
        names_unique(parse_mount_line(s)->0.options),
{
    reveal(parse_mount_line);
    let t = ws_tokens(s);
    let k = dash_from(t, 6);
    lemma_merge_unique(seq![], parse_options(t[5]));
    let direct = merge_options(seq![], parse_options(t[5]));
    lemma_merge_unique(direct, without_rw(parse_options(t[k + 3])));
}

} // verus!
