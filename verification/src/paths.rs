//! File-system paths as text, read the way Unix paths are read: a leading `/`
//! is the root, `/` separates components, empty and `.` components vanish
//! (save a leading `.`), and `..` stays.
use vstd::prelude::*;
use crate::text::{chars_of, split_chars, split_on, string_of, texts, push_chars, lemma_split_on_nonempty};

verus! {

broadcast use vstd::seq_lib::group_seq_properties;

/// One component of a path.
pub enum Part {
    Root,
    Current,
    Parent,
    Named(Seq<char>),
}

/// The component that a piece between separators stands for, if any.
pub open spec fn part_of(piece: Seq<char>) -> Option<Part> {
    if piece.len() == 0 || piece == seq!['.'] {
        None
    } else if piece == seq!['.', '.'] {
        Some(Part::Parent)
    } else {
        Some(Part::Named(piece))
    }
}

/// The components that a run of pieces stands for.
pub open spec fn parts_of_pieces(pieces: Seq<Seq<char>>) -> Seq<Part>
    decreases pieces.len(),
{
    if pieces.len() == 0 {
        Seq::<Part>::empty()
    } else {
        let prev = parts_of_pieces(pieces.drop_last());
        match part_of(pieces.last()) {
            Some(q) => prev.push(q),
            None => prev,
        }
    }
}

/// The component that the start of `p` stands for: the root, a leading `.`, or none.
pub open spec fn head_parts(p: Seq<char>) -> Seq<Part> {
    if p.len() > 0 && p[0] == '/' {
        seq![Part::Root]
    } else if p == seq!['.'] || (p.len() >= 2 && p[0] == '.' && p[1] == '/') {
        seq![Part::Current]
    } else {
        Seq::<Part>::empty()
    }
}

/// The components of the path `p`.
pub open spec fn components(p: Seq<char>) -> Seq<Part> {
    head_parts(p) + parts_of_pieces(split_on(p, '/'))
}

/// Two paths are the same path when their components agree.
pub open spec fn same_path(a: Seq<char>, b: Seq<char>) -> bool {
    components(a) == components(b)
}

/// `p` lies under `base` when the components of `base` begin those of `p`.
pub open spec fn path_starts_with(p: Seq<char>, base: Seq<char>) -> bool {
    let pc = components(p);
    let bc = components(base);
    bc.len() <= pc.len() && pc.take(bc.len() as int) == bc
}

/// The last component of `p`, when it is a name.
pub open spec fn file_name(p: Seq<char>) -> Option<Seq<char>> {
    let c = components(p);
    if c.len() > 0 && c.last() is Named {
        Some(c.last()->Named_0)
    } else {
        None
    }
}

/// `rest` appended to `base` as `PathBuf::push` appends it: a rest that starts
/// with `/` replaces the base, and a separator goes between the two when the
/// base is not empty and does not already end with one.
pub open spec fn joined(base: Seq<char>, rest: Seq<char>) -> Seq<char> {
    if rest.len() > 0 && rest[0] == '/' {
        rest
    } else if base.len() > 0 && base.last() != '/' {
        base + seq!['/'] + rest
    } else {
        base + rest
    }
}

/// A component of a path, as held at run time.
pub enum PathPart {
    Root,
    Current,
    Parent,
    Named(Vec<char>),
}

impl View for PathPart {
    type V = Part;

    open spec fn view(&self) -> Part {
        match self {
            PathPart::Root => Part::Root,
            PathPart::Current => Part::Current,
            PathPart::Parent => Part::Parent,
            PathPart::Named(n) => Part::Named(n@),
        }
    }
}

/// The components held by a list of run-time components.
pub open spec fn parts_view(v: Seq<PathPart>) -> Seq<Part> {
    v.map_values(|x: PathPart| x@)
}

fn same_part(a: &PathPart, b: &PathPart) -> (r: bool)
    ensures
        r == (a@ == b@),
{
    match (a, b) {
        (PathPart::Root, PathPart::Root) => true,
        (PathPart::Current, PathPart::Current) => true,
        (PathPart::Parent, PathPart::Parent) => true,
        (PathPart::Named(x), PathPart::Named(y)) => crate::text::same_chars(
            x.as_slice(),
            y.as_slice(),
        ),
        _ => false,
    }
}

/// The components of the path `p`.
pub fn path_parts(p: &[char]) -> (r: Vec<PathPart>)
    ensures
        parts_view(r@) == components(p@),
{
    let mut out: Vec<PathPart> = Vec::new();
    if p.len() > 0 && p[0] == '/' {
        out.push(PathPart::Root);
    } else if (p.len() == 1 && p[0] == '.') || (p.len() >= 2 && p[0] == '.' && p[1] == '/') {
        out.push(PathPart::Current);
        assert(p.len() == 1 ==> p@ =~= seq!['.']);
    } else {
        assert(!(p@ == seq!['.']) || p@.len() == 1);
    }
    assert(parts_view(out@) =~= head_parts(p@));
    let pieces = split_chars(p, '/');
    let ghost head = parts_view(out@);
    let mut i: usize = 0;
    while i < pieces.len()
        invariant
            i <= pieces@.len(),
            texts(pieces@) == split_on(p@, '/'),
            parts_view(out@) =~= head + parts_of_pieces(texts(pieces@).take(i as int)),
        decreases pieces@.len() - i,
    {
        let ghost tp = texts(pieces@);
        let ghost before = parts_view(out@);
        assert(tp.take(i + 1).drop_last() =~= tp.take(i as int));
        assert(tp.take(i + 1).last() == tp[i as int]);
        let piece = &pieces[i];
        assert(piece@ == tp[i as int]);
        let n = piece.len();
        if n == 0 || (n == 1 && piece[0] == '.') {
            assert(n == 1 ==> piece@ =~= seq!['.']);
        } else if n == 2 && piece[0] == '.' && piece[1] == '.' {
            assert(piece@ =~= seq!['.', '.']);
            out.push(PathPart::Parent);
            assert(parts_view(out@) =~= before.push(Part::Parent));
        } else {
            assert(!(piece@ == seq!['.']) && !(piece@ == seq!['.', '.']));
            out.push(PathPart::Named(piece.clone()));
            assert(parts_view(out@) =~= before.push(Part::Named(tp[i as int])));
        }
        i += 1;
    }
    assert(texts(pieces@).take(i as int) =~= texts(pieces@));
    out
}

/// Whether `a` and `b` name the same path.
pub fn paths_equal(a: &str, b: &str) -> (r: bool)
    ensures
        r == same_path(a@, b@),
{
    let ac = chars_of(a);
    let bc = chars_of(b);
    let pa = path_parts(ac.as_slice());
    let pb = path_parts(bc.as_slice());
    if pa.len() != pb.len() {
        assert(parts_view(pa@).len() != parts_view(pb@).len());
        return false;
    }
    let mut i: usize = 0;
    while i < pa.len()
        invariant
            pa@.len() == pb@.len(),
            parts_view(pa@) == components(a@),
            parts_view(pb@) == components(b@),
            i <= pa@.len(),
            forall|j: int| 0 <= j < i ==> pa@[j]@ == pb@[j]@,
        decreases pa@.len() - i,
    {
        if !same_part(&pa[i], &pb[i]) {
            assert(parts_view(pa@)[i as int] != parts_view(pb@)[i as int]);
            assert(parts_view(pa@) != parts_view(pb@));
            return false;
        }
        i += 1;
    }
    assert(parts_view(pa@) =~= parts_view(pb@));
    true
}

/// Whether the path `p` lies under the path `base`, component by component.
pub fn path_under(p: &str, base: &str) -> (r: bool)
    ensures
        r == path_starts_with(p@, base@),
{
    let pc = chars_of(p);
    let bc = chars_of(base);
    let pp = path_parts(pc.as_slice());
    let bp = path_parts(bc.as_slice());
    let ghost pv = parts_view(pp@);
    let ghost bv = parts_view(bp@);
    if bp.len() > pp.len() {
        return false;
    }
    let mut i: usize = 0;
    while i < bp.len()
        invariant
            bp@.len() <= pp@.len(),
            pv == parts_view(pp@),
            bv == parts_view(bp@),
            pv == components(p@),
            bv == components(base@),
            i <= bp@.len(),
            forall|j: int| 0 <= j < i ==> pp@[j]@ == bp@[j]@,
        decreases bp@.len() - i,
    {
        if !same_part(&pp[i], &bp[i]) {
            assert(pv.take(bv.len() as int)[i as int] != bv[i as int]);
            assert(pv.take(bv.len() as int) != bv);
            return false;
        }
        i += 1;
    }
    assert(pv.take(bv.len() as int) =~= bv);
    true
}

/// The final component of `p`, when it is a name (`Path::file_name`).
pub fn path_file_name(p: &str) -> (r: Option<String>)
    ensures
        match r {
            Some(n) => file_name(p@) == Some(n@),
            None => file_name(p@) is None,
        },
{
    let pc = chars_of(p);
    let parts = path_parts(pc.as_slice());
    let n = parts.len();
    if n == 0 {
        return None;
    }
    assert(parts_view(parts@).last() == parts@[n - 1]@);
    match &parts[n - 1] {
        PathPart::Named(name) => Some(string_of(name.as_slice())),
        _ => None,
    }
}

/// `rest` appended to the path `base` (`Path::join`).
pub fn join_path(base: &str, rest: &str) -> (r: String)
    ensures
        r@ == joined(base@, rest@),
{
    let bc = chars_of(base);
    let rc = chars_of(rest);
    if rc.len() > 0 && rc[0] == '/' {
        return string_of(rc.as_slice());
    }
    let mut out = bc.clone();
    assert(out@ == bc@);
    if bc.len() > 0 && bc[bc.len() - 1] != '/' {
        out.push('/');
    }
    push_chars(&mut out, rc.as_slice());
    string_of(out.as_slice())
}

/// The folder for shared files: `Downloads/Wifly` under the home folder
/// (`HOME`, else `USERPROFILE`), or `/tmp/wifly-shared` when neither is known.
pub fn default_shared_dir(home: Option<String>, user_profile: Option<String>) -> (dir: String)
    ensures
        dir@ == (match home {
            Some(h) => joined(joined(h@, "Downloads"@), "Wifly"@),
            None => match user_profile {
                Some(u) => joined(joined(u@, "Downloads"@), "Wifly"@),
                None => "/tmp/wifly-shared"@,
            },
        }),
{
    match home {
        Some(h) => join_path(join_path(h.as_str(), "Downloads").as_str(), "Wifly"),
        None => match user_profile {
            Some(u) => join_path(join_path(u.as_str(), "Downloads").as_str(), "Wifly"),
            None => crate::text::owned("/tmp/wifly-shared"),
        },
    }
}

/// Appending text free of `/` extends the last piece.
proof fn lemma_split_append(a: Seq<char>, b: Seq<char>)
    requires
        forall|i: int| 0 <= i < b.len() ==> b[i] != '/',
    ensures
        split_on(a + b, '/') == split_on(a, '/').update(
            split_on(a, '/').len() - 1,
            split_on(a, '/').last() + b,
        ),
    decreases b.len(),
{
    lemma_split_on_nonempty(a, '/');
    if b.len() == 0 {
        assert(a + b =~= a);
        assert(split_on(a, '/').last() + b =~= split_on(a, '/').last());
        assert(split_on(a, '/').update(split_on(a, '/').len() - 1, split_on(a, '/').last())
            =~= split_on(a, '/'));
    } else {
        lemma_split_append(a, b.drop_last());
        assert((a + b).drop_last() =~= a + b.drop_last());
        assert((a + b).last() == b.last());
        let prev = split_on(a + b.drop_last(), '/');
        let sa = split_on(a, '/');
        assert(prev.last() == sa.last() + b.drop_last());
        assert(prev.last().push(b.last()) =~= sa.last() + b);
        assert(prev.update(prev.len() - 1, prev.last().push(b.last())) =~= sa.update(
            sa.len() - 1,
            sa.last() + b,
        ));
    }
}

/// The components of the pieces, once the last (empty) piece is replaced by `n`.
proof fn lemma_parts_replace_empty_last(ps: Seq<Seq<char>>, n: Seq<char>)
    requires
        ps.len() >= 1,
        ps.last().len() == 0,
    ensures
        parts_of_pieces(ps.update(ps.len() - 1, n)) == parts_of_pieces(ps) + match part_of(n) {
            Some(q) => seq![q],
            None => Seq::<Part>::empty(),
        },
{
    let u = ps.update(ps.len() - 1, n);
    assert(u.drop_last() =~= ps.drop_last());
    assert(u.last() == n);
    assert(part_of(ps.last()) is None);
    match part_of(n) {
        Some(q) => {
            assert(parts_of_pieces(ps).push(q) =~= parts_of_pieces(ps) + seq![q]);
        },
        None => {
            assert(parts_of_pieces(ps) =~= parts_of_pieces(ps) + Seq::<Part>::empty());
        },
    }
}

/// A name without `/` joined to a folder is a path directly inside that
/// folder: its components are the folder's, followed by the name's (if any).
pub proof fn lemma_join_name_inside(dir: Seq<char>, name: Seq<char>)
    requires
        forall|i: int| 0 <= i < name.len() ==> name[i] != '/',
    ensures
        path_starts_with(joined(dir, name), dir),
        dir.len() > 0 ==> components(joined(dir, name)) == components(dir) + match part_of(
            name,
        ) {
            Some(q) => seq![q],
            None => Seq::<Part>::empty(),
        },
{
    let j = joined(dir, name);
    assert(!(name.len() > 0 && name[0] == '/'));
    if dir.len() == 0 {
        assert(j =~= name);
        assert(components(dir) =~= Seq::<Part>::empty()) by {
            assert(split_on(dir, '/') =~= seq![Seq::<char>::empty()]);
            assert(parts_of_pieces(split_on(dir, '/')).len() == 0) by {
                reveal_with_fuel(parts_of_pieces, 2);
                assert(split_on(dir, '/').drop_last() =~= Seq::<Seq<char>>::empty());
            }
        }
        assert(components(j).take(0) =~= components(dir));
    } else {
        let base = if dir.last() != '/' {
            dir.push('/')
        } else {
            dir
        };
        assert(j =~= base + name);
        // the start of the path does not change
        assert(j[0] == dir[0]);
        if dir.len() >= 2 {
            assert(j[1] == dir[1]);
        }
        if dir.len() == 1 && dir[0] == '.' {
            assert(dir =~= seq!['.']);
            assert(j.len() >= 2 && j[1] == '/');
        }
        if dir == seq!['.'] {
            assert(dir.last() == '.');
        }
        if j == seq!['.'] {
            assert(false);
        }
        assert(head_parts(j) == head_parts(dir));
        // the pieces gain the name as their last one
        lemma_split_on_nonempty(dir, '/');
        let sd = split_on(dir, '/');
        let sb = split_on(base, '/');
        if dir.last() != '/' {
            assert(base.drop_last() =~= dir);
            assert(sb == sd.push(Seq::<char>::empty()));
            lemma_split_append(base, name);
            lemma_parts_replace_empty_last(sb, name);
            assert(sb.drop_last() =~= sd);
            assert(parts_of_pieces(sb) == parts_of_pieces(sd));
        } else {
            assert(dir.drop_last().push('/') =~= dir);
            assert(sd.last().len() == 0);
            lemma_split_append(base, name);
            lemma_parts_replace_empty_last(sd, name);
        }
        let extra = match part_of(name) {
            Some(q) => seq![q],
            None => Seq::<Part>::empty(),
        };
        assert(components(j) =~= components(dir) + extra);
        assert(components(j).take(components(dir).len() as int) =~= components(dir));
    }
}

} // verus!
