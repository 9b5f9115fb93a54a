//! The source list: where a source's file is, where a load may land in it, and
//! what a list change does to everything that names a source by its index.

use vstd::prelude::*;

use crate::project::{Clip, Project, SourceRef};
use crate::scoreboard_config::MatchEventRecord;
use crate::text;
use crate::time;
use crate::user_error::UserError;

verus! {

// ---------------------------------------------------------------------------
// Paths.

/// Whether a path is absolute.
pub open spec fn absolute(path: Seq<char>) -> bool {
    path.len() > 0 && path[0] == '/'
}

/// Whether a fragment between separators names something: the empty ones
/// between doubled separators do not, nor does `.`.
pub open spec fn is_name(part: Seq<char>) -> bool {
    part.len() > 0 && part != seq!['.']
}

/// The names along a path.
pub open spec fn names(path: Seq<char>) -> Seq<Seq<char>> {
    names_among(text::split_at(path, '/'))
}

/// The fragments that are names.
pub open spec fn names_among(parts: Seq<Seq<char>>) -> Seq<Seq<char>>
    decreases parts.len(),
{
    if parts.len() == 0 {
        seq![]
    } else if is_name(parts.last()) {
        names_among(parts.drop_last()).push(parts.last())
    } else {
        names_among(parts.drop_last())
    }
}

/// How many names two paths share from their start.
pub open spec fn common(a: Seq<Seq<char>>, b: Seq<Seq<char>>) -> nat
    decreases a.len(),
{
    if a.len() == 0 || b.len() == 0 || a[0] != b[0] {
        0
    } else {
        1 + common(a.drop_first(), b.drop_first())
    }
}

/// The name that climbs out of a folder.
pub open spec fn parent() -> Seq<char> {
    seq!['.', '.']
}

/// Climbing out `n` folders.
pub open spec fn climb(n: nat) -> Seq<Seq<char>> {
    Seq::new(n, |i: int| parent())
}

/// The way from the folder `base` to `path`.
pub open spec fn way(path: Seq<Seq<char>>, base: Seq<Seq<char>>) -> Seq<Seq<char>> {
    let shared = common(path, base);
    climb((base.len() - shared) as nat) + path.skip(shared as int)
}

proof fn lemma_common_is_bounded(a: Seq<Seq<char>>, b: Seq<Seq<char>>)
    ensures
        common(a, b) <= a.len(),
        common(a, b) <= b.len(),
        a.take(common(a, b) as int) == b.take(common(a, b) as int),
    decreases a.len(),
{
    if a.len() == 0 || b.len() == 0 || a[0] != b[0] {
        assert(a.take(0) =~= b.take(0));
    } else {
        lemma_common_is_bounded(a.drop_first(), b.drop_first());
        let n = common(a, b) as int;
        assert forall|i: int| 0 <= i < n implies a.take(n)[i] == b.take(n)[i] by {
            if i > 0 {
                assert(a.drop_first().take(n - 1)[i - 1] == a[i]);
                assert(b.drop_first().take(n - 1)[i - 1] == b[i]);
            }
        }
        assert(a.take(n) =~= b.take(n));
    }
}

/// Whether a path is absolute.
pub fn is_absolute(path: &str) -> (yes: bool)
    ensures
        yes == absolute(path@),
{
    let chars = text::chars_of(path);
    chars.len() > 0 && chars[0] == '/'
}

fn names_of(path: &str) -> (found: Vec<String>)
    ensures
        text::texts(found@) == names(path@),
{
    let parts = text::split(path, '/');
    let mut found: Vec<String> = Vec::new();
    let ghost all = text::texts(parts@);
    assert(text::texts(found@) =~= names_among(all.take(0)));
    for i in 0..parts.len()
        invariant
            all == text::texts(parts@),
            text::texts(found@) == names_among(all.take(i as int)),
    {
        let ghost before = found@;
        assert(all.take(i + 1).drop_last() =~= all.take(i as int));
        let part = &parts[i];
        let chars = text::chars_of(part.as_str());
        assert(chars@ == all[i as int]);
        assert(chars@.len() == 1 && chars@[0] == '.' ==> chars@ =~= seq!['.']);
        if chars.len() > 0 && !(chars.len() == 1 && chars[0] == '.') {
            found.push(part.clone());
            assert(text::texts(found@) =~= text::texts(before).push(part@));
        }
    }
    assert(all.take(all.len() as int) =~= all);
    found
}

/// How many names two lists share from their start.
fn shared_names(a: &Vec<String>, b: &Vec<String>) -> (n: usize)
    ensures
        n == common(text::texts(a@), text::texts(b@)),
{
    let ghost left = text::texts(a@);
    let ghost right = text::texts(b@);
    let mut n: usize = 0;
    assert(left.skip(0) =~= left);
    assert(right.skip(0) =~= right);
    while n < a.len() && n < b.len() && a[n] == b[n]
        invariant
            left == text::texts(a@),
            right == text::texts(b@),
            n <= a@.len(),
            n <= b@.len(),
            common(left, right) == n + common(left.skip(n as int), right.skip(n as int)),
        decreases a.len() - n,
    {
        assert(left.skip(n as int).drop_first() =~= left.skip(n + 1));
        assert(right.skip(n as int).drop_first() =~= right.skip(n + 1));
        n = n + 1;
    }
    n
}

/// `path` relative to the folder `base`, both absolute and canonical, as names
/// joined by `/` that may start with `..`. `None` if either isn't absolute.
pub fn relative_path(path: &str, base: &str) -> (relative: Option<String>)
    ensures
        match relative {
            Some(r) => absolute(path@) && absolute(base@) && r@ == text::joined(
                way(names(path@), names(base@)),
                "/"@,
            ),
            None => !absolute(path@) || !absolute(base@),
        },
{
    if !is_absolute(path) || !is_absolute(base) {
        return None;
    }
    let to = names_of(path);
    let from = names_of(base);
    let shared: usize = shared_names(&to, &from);
    let ghost target = text::texts(to@);
    let ghost origin = text::texts(from@);
    proof {
        lemma_common_is_bounded(target, origin);
    }
    let mut parts: Vec<String> = Vec::new();
    for i in shared..from.len()
        invariant
            text::texts(parts@) == climb((i - shared) as nat),
    {
        let ghost before = text::texts(parts@);
        parts.push("..".to_owned());
        proof {
            reveal_strlit("..");
            assert(".."@ =~= parent());
            assert(text::texts(parts@) =~= before.push(parent()));
            assert(text::texts(parts@) =~= climb((i + 1 - shared) as nat));
        }
    }
    let ghost out = climb((origin.len() - shared) as nat);
    assert(out + target.subrange(shared as int, shared as int) =~= out);
    for i in shared..to.len()
        invariant
            target == text::texts(to@),
            shared <= to@.len(),
            text::texts(parts@) == out + target.subrange(shared as int, i as int),
    {
        let ghost before = text::texts(parts@);
        parts.push(to[i].clone());
        proof {
            assert(text::texts(parts@) =~= before.push(target[i as int]));
            assert(before.push(target[i as int]) =~= out + target.subrange(
                shared as int,
                i + 1,
            ));
        }
    }
    assert(target.subrange(shared as int, target.len() as int) =~= target.skip(shared as int));
    Some(text::join(&parts, "/"))
}

/// Where a list of names leads: each `..` climbs out of the folder before it.
pub open spec fn resolved(parts: Seq<Seq<char>>) -> Seq<Seq<char>>
    decreases parts.len(),
{
    if parts.len() == 0 {
        seq![]
    } else if parts.last() == parent() {
        let before = resolved(parts.drop_last());
        if before.len() == 0 {
            before
        } else {
            before.drop_last()
        }
    } else {
        resolved(parts.drop_last()).push(parts.last())
    }
}

/// Whether a list of names never climbs.
pub open spec fn canonical(parts: Seq<Seq<char>>) -> bool {
    forall|i: int| 0 <= i < parts.len() ==> #[trigger] parts[i] != parent()
}

proof fn lemma_canonical_resolves_to_itself(parts: Seq<Seq<char>>)
    requires
        canonical(parts),
    ensures
        resolved(parts) == parts,
    decreases parts.len(),
{
    if parts.len() > 0 {
        lemma_canonical_resolves_to_itself(parts.drop_last());
        assert(parts.drop_last().push(parts.last()) =~= parts);
    }
}

proof fn lemma_climbing_resolves(base: Seq<Seq<char>>, n: nat)
    requires
        canonical(base),
        n <= base.len(),
    ensures
        resolved(base + climb(n)) == base.take(base.len() - n),
    decreases n,
{
    let all = base + climb(n);
    if n == 0 {
        assert(all =~= base);
        assert(base.take(base.len() as int) =~= base);
        lemma_canonical_resolves_to_itself(base);
    } else {
        lemma_climbing_resolves(base, (n - 1) as nat);
        assert(all.drop_last() =~= base + climb((n - 1) as nat));
        assert(all.last() == parent());
        let before = base.take(base.len() - n + 1);
        assert(before.drop_last() =~= base.take(base.len() - n));
    }
}

proof fn lemma_descending_resolves(start: Seq<Seq<char>>, rest: Seq<Seq<char>>)
    requires
        canonical(rest),
    ensures
        resolved(start + rest) == resolved(start) + rest,
    decreases rest.len(),
{
    let all = start + rest;
    if rest.len() == 0 {
        assert(all =~= start);
        assert(resolved(start) + rest =~= resolved(start));
    } else {
        lemma_descending_resolves(start, rest.drop_last());
        assert(all.drop_last() =~= start + rest.drop_last());
        assert(all.last() == rest.last());
        assert((resolved(start) + rest.drop_last()).push(rest.last()) =~= resolved(start) + rest);
    }
}

/// A list of names: none empty, none `.`, none holding a separator.
pub open spec fn plain_names(parts: Seq<Seq<char>>) -> bool {
    forall|i: int|
        0 <= i < parts.len() ==> is_name(#[trigger] parts[i]) && !parts[i].contains('/')
}

/// Names joined by separators are read back as they were.
proof fn lemma_joined_names_read_back(parts: Seq<Seq<char>>)
    requires
        plain_names(parts),
    ensures
        names(text::joined(parts, seq!['/'])) == parts,
        parts.len() > 0 ==> text::split_at(text::joined(parts, seq!['/']), '/') == parts,
{
    let slash = seq!['/'];
    if parts.len() == 0 {
        assert(text::joined(parts, slash) =~= seq![]);
        let one: Seq<Seq<char>> = seq![seq![]];
        assert(text::split_at(seq![], '/') =~= one);
        assert(names_among(one.drop_last()) =~= seq![]);
        assert(names_among(one) =~= parts);
    } else {
        let none = Seq::<char>::empty();
        text::lemma_split_of_joined(parts, '/', none);
        assert(slash + none =~= slash);
        assert forall|i: int| 0 <= i < parts.len() implies #[trigger] text::padded(parts, none)[i]
            == parts[i] by {
            assert(none + parts[i] =~= parts[i]);
        }
        assert(text::padded(parts, none) =~= parts);
        lemma_all_are_names(parts);
    }
}

proof fn lemma_all_are_names(parts: Seq<Seq<char>>)
    requires
        plain_names(parts),
    ensures
        names_among(parts) == parts,
    decreases parts.len(),
{
    if parts.len() > 0 {
        lemma_all_are_names(parts.drop_last());
        assert(is_name(parts[parts.len() - 1]));
        assert(parts.drop_last().push(parts.last()) =~= parts);
    } else {
        assert(names_among(parts) =~= parts);
    }
}

proof fn lemma_pieces_hold_no_separator(s: Seq<char>)
    ensures
        text::split_at(s, '/').len() > 0,
        forall|i: int|
            0 <= i < text::split_at(s, '/').len() ==> !(#[trigger] text::split_at(
                s,
                '/',
            )[i]).contains('/'),
    decreases s.len(),
{
    let pieces = text::split_at(s, '/');
    if s.len() == 0 {
        assert(pieces =~= seq![Seq::<char>::empty()]);
    } else {
        lemma_pieces_hold_no_separator(s.drop_last());
        let before = text::split_at(s.drop_last(), '/');
        assert forall|i: int| 0 <= i < pieces.len() implies !(#[trigger] pieces[i]).contains(
            '/',
        ) by {
            if s.last() == '/' {
                if i < before.len() {
                    assert(pieces[i] == before[i]);
                } else {
                    assert(pieces[i] =~= seq![]);
                }
            } else if i < before.len() - 1 {
                assert(pieces[i] == before[i]);
            } else {
                let piece = before.last().push(s.last());
                assert(pieces[i] == piece);
                assert(!before[before.len() - 1].contains('/'));
                if piece.contains('/') {
                    let k = choose|k: int| 0 <= k < piece.len() && piece[k] == '/';
                    assert(before.last()[k] == '/');
                }
            }
        }
    }
}

proof fn lemma_names_are_plain(parts: Seq<Seq<char>>)
    requires
        forall|i: int| 0 <= i < parts.len() ==> !(#[trigger] parts[i]).contains('/'),
    ensures
        plain_names(names_among(parts)),
    decreases parts.len(),
{
    if parts.len() > 0 {
        lemma_names_are_plain(parts.drop_last());
        assert(!parts[parts.len() - 1].contains('/'));
    }
}

/// **A stored path leads back to its file**: from the project's folder, the
/// relative path of a file resolves to that file, for canonical paths (those
/// that hold no `..`).
pub proof fn law_a_relative_path_leads_back(path: Seq<char>, base: Seq<char>)
    requires
        absolute(path),
        absolute(base),
        canonical(names(path)),
        canonical(names(base)),
    ensures
        resolved(
            names(base) + names(text::joined(way(names(path), names(base)), "/"@)),
        ) == names(path),
{
    reveal_strlit("/");
    assert("/"@ =~= seq!['/']);
    let to = names(path);
    let from = names(base);
    let shared = common(to, from);
    lemma_common_is_bounded(to, from);
    lemma_pieces_hold_no_separator(path);
    lemma_names_are_plain(text::split_at(path, '/'));
    let up = climb((from.len() - shared) as nat);
    let rest = to.skip(shared as int);
    let parts = way(to, from);
    assert(plain_names(parts)) by {
        assert forall|i: int| 0 <= i < parts.len() implies is_name(#[trigger] parts[i])
            && !parts[i].contains('/') by {
            if i < up.len() {
                assert(parts[i] == parent());
                assert(parent().len() == 2 && seq!['.'].len() == 1);
                if parent().contains('/') {
                    let k = choose|k: int| 0 <= k < parent().len() && parent()[k] == '/';
                    assert(parent()[k] == '.');
                }
            } else {
                assert(parts[i] == to[i - up.len() + shared]);
            }
        }
    }
    lemma_joined_names_read_back(parts);
    lemma_climbing_resolves(from, (from.len() - shared) as nat);
    assert(canonical(rest)) by {
        assert forall|i: int| 0 <= i < rest.len() implies #[trigger] rest[i] != parent() by {
            assert(rest[i] == to[i + shared]);
        }
    }
    lemma_descending_resolves(from + up, rest);
    assert(from + parts =~= from + up + rest);
    assert(to.take(shared as int) + rest =~= to);
}

/// The name of the file or folder at the end of a path, if it ends in one.
pub open spec fn last_name(path: Seq<char>) -> Option<Seq<char>> {
    let along = names(path);
    if along.len() == 0 || along.last() == parent() {
        None
    } else {
        Some(along.last())
    }
}

/// The name of the file or folder at the end of a path, if it ends in one.
pub fn file_name(path: &str) -> (name: Option<String>)
    ensures
        match name {
            Some(n) => last_name(path@) == Some(n@),
            None => last_name(path@) is None,
        },
{
    let mut along = names_of(path);
    let ghost all = text::texts(along@);
    match along.pop() {
        None => None,
        Some(name) => {
            assert(all.last() == name@);
            let chars = text::chars_of(name.as_str());
            assert(chars@.len() == 2 && chars@[0] == '.' && chars@[1] == '.' ==> chars@
                =~= parent());
            if chars.len() == 2 && chars[0] == '.' && chars[1] == '.' {
                None
            } else {
                Some(name)
            }
        },
    }
}

/// Whether `source` is how the project in `folder` stores the video `path`,
/// or the refusal where there is no way to it. `canonical` is where `path`
/// really is.
pub open spec fn stored_as(
    source: Result<SourceRef, UserError>,
    path: Seq<char>,
    canonical: Seq<char>,
    folder: Seq<char>,
    duration: i64,
    display_aspect: u64,
) -> bool {
    match source {
        Ok(s) => {
            let relative = text::joined(way(names(canonical), names(folder)), "/"@);
            &&& absolute(canonical)
            &&& absolute(folder)
            &&& s.relative_path@ == relative
            &&& s.display_name@ == match last_name(path) {
                Some(name) => name,
                None => relative,
            }
            &&& s.duration == duration
            &&& s.display_aspect == display_aspect
        },
        Err(e) => {
            &&& !absolute(canonical) || !absolute(folder)
            &&& e is Io
            &&& e->Io_0@ == path
                + " can't be stored relative to the project folder (non-UTF-8 path?)"@
        },
    }
}

/// A chosen video as the project in `folder` stores it. `canonical` is where
/// `path` really is; the length and shape are those that were probed.
pub fn source_ref(
    path: &str,
    canonical: &str,
    folder: &str,
    duration: i64,
    display_aspect: u64,
) -> (source: Result<SourceRef, UserError>)
    ensures
        stored_as(source, path@, canonical@, folder@, duration, display_aspect),
{
    match relative_path(canonical, folder) {
        None => {
            let mut why = path.to_owned();
            why.append(" can't be stored relative to the project folder (non-UTF-8 path?)");
            Err(UserError::Io(why))
        },
        Some(relative_path) => {
            let display_name = match file_name(path) {
                Some(name) => name,
                None => relative_path.clone(),
            };
            Ok(SourceRef { relative_path, display_name, duration, display_aspect })
        },
    }
}

// ---------------------------------------------------------------------------
// The videos' shapes.

/// How far apart two videos' shapes may be and still count as one, in
/// billionths.
pub const ASPECT_TOLERANCE: u64 = 10_000_000;

/// A video's shape differs from one of the project's videos. Both are in
/// billionths.
#[derive(Debug, Clone, Copy, PartialEq, Eq, Structural)]
pub struct AspectMismatch {
    pub existing: u64,
    pub attempted: u64,
}

/// Whether two shapes count as one.
pub open spec fn alike(a: u64, b: u64) -> bool {
    -(ASPECT_TOLERANCE as int) <= a - b <= ASPECT_TOLERANCE
}

/// Whether every two of the videos share a shape.
pub open spec fn one_shape(sources: Seq<SourceRef>) -> bool {
    forall|i: int, j: int|
        0 <= i < j < sources.len() ==> alike(
            (#[trigger] sources[i]).display_aspect,
            (#[trigger] sources[j]).display_aspect,
        )
}

/// The first video, other than the one being replaced, that `attempted` differs
/// from in shape.
pub open spec fn first_stray(
    sources: Seq<SourceRef>,
    excluding: Option<usize>,
    attempted: u64,
) -> Option<int>
    decreases sources.len(),
{
    if sources.len() == 0 {
        None
    } else {
        let last = sources.len() - 1;
        match first_stray(sources.drop_last(), excluding, attempted) {
            Some(i) => Some(i),
            None => if excluding != Some(last as usize) && !alike(
                sources[last].display_aspect,
                attempted,
            ) {
                Some(last)
            } else {
                None
            },
        }
    }
}

impl AspectMismatch {
    /// A shape in thousandths: the nearest, an even one where two are as near.
    pub open spec fn thousandths(billionths: u64) -> u64 {
        crate::format::nearest_whole(billionths as int) as u64
    }

    /// What the user is told.
    pub fn reported(&self) -> (error: UserError)
        ensures
            error == (UserError::AspectMismatch {
                existing: AspectMismatch::thousandths(self.existing),
                attempted: AspectMismatch::thousandths(self.attempted),
            }),
    {
        UserError::AspectMismatch {
            existing: crate::format::rounded(self.existing),
            attempted: crate::format::rounded(self.attempted),
        }
    }
}

impl Project {
    /// Holds a shape against those of the project's videos. `excluding` is the
    /// one being replaced.
    pub fn check_aspect(&self, attempted: u64, excluding: Option<usize>) -> (checked: Result<
        (),
        AspectMismatch,
    >)
        ensures
            checked == match first_stray(self.source_videos@, excluding, attempted) {
                Some(i) => Err(
                    AspectMismatch { existing: self.source_videos@[i].display_aspect, attempted },
                ),
                None => Ok(()),
            },
    {
        let ghost all = self.source_videos@;
        for i in 0..self.source_videos.len()
            invariant
                all == self.source_videos@,
                first_stray(all.take(i as int), excluding, attempted) is None,
        {
            let existing: u64 = self.source_videos[i].display_aspect;
            let apart: u64 = if existing < attempted {
                attempted - existing
            } else {
                existing - attempted
            };
            proof {
                assert(all.take(i + 1).drop_last() =~= all.take(i as int));
            }
            if excluding != Some(i) && apart > ASPECT_TOLERANCE {
                proof {
                    lemma_first_stray_of_a_start(all, excluding, attempted, i + 1);
                }
                return Err(AspectMismatch { existing, attempted });
            }
        }
        assert(all.take(all.len() as int) =~= all);
        Ok(())
    }

    /// Appends a source.
    pub fn add_source(&mut self, source: SourceRef)
        ensures
            *final(self) == (Project {
                source_videos: final(self).source_videos,
                ..*old(self)
            }),
            final(self).source_videos@ == old(self).source_videos@.push(source),
    {
        self.source_videos.push(source);
    }

    /// Puts another file in a source's place. Returns whether there is such a
    /// source; without one nothing changes.
    pub fn relink_source(&mut self, index: usize, source: SourceRef) -> (relinked: bool)
        ensures
            relinked == (index < old(self).source_videos@.len()),
            *final(self) == (Project {
                source_videos: final(self).source_videos,
                ..*old(self)
            }),
            final(self).source_videos@ == if relinked {
                old(self).source_videos@.update(index as int, source)
            } else {
                old(self).source_videos@
            },
    {
        if index >= self.source_videos.len() {
            return false;
        }
        self.source_videos.set(index, source);
        true
    }
}

/// A chosen and probed video as the project stores it: first its shape is held
/// against the project's, then the way to it is found. `canonical` is where
/// `path` really is, or why that could not be found out; `excluding` is the
/// source being relinked.
pub fn probed_source(
    project: &Project,
    excluding: Option<usize>,
    path: &str,
    canonical: &Result<String, String>,
    folder: &str,
    duration: i64,
    display_aspect: u64,
) -> (source: Result<SourceRef, UserError>)
    ensures
        match first_stray(project.source_videos@, excluding, display_aspect) {
            Some(i) => source == Err::<SourceRef, _>(
                UserError::AspectMismatch {
                    existing: AspectMismatch::thousandths(
                        project.source_videos@[i].display_aspect,
                    ),
                    attempted: AspectMismatch::thousandths(display_aspect),
                },
            ),
            None => match *canonical {
                Err(why) => source matches Err(UserError::Io(said)) && said@ == path@ + ": "@
                    + why@,
                Ok(canonical) => stored_as(
                    source,
                    path@,
                    canonical@,
                    folder@,
                    duration,
                    display_aspect,
                ),
            },
        },
{
    if let Err(mismatch) = project.check_aspect(display_aspect, excluding) {
        return Err(mismatch.reported());
    }
    match canonical {
        Err(why) => {
            let mut said = path.to_owned();
            said.append(": ");
            said.append(why.as_str());
            Err(UserError::Io(said))
        },
        Ok(canonical) => source_ref(path, canonical.as_str(), folder, duration, display_aspect),
    }
}

proof fn lemma_first_stray_of_a_start(
    sources: Seq<SourceRef>,
    excluding: Option<usize>,
    attempted: u64,
    n: int,
)
    requires
        0 <= n <= sources.len(),
        first_stray(sources.take(n), excluding, attempted) is Some,
    ensures
        first_stray(sources, excluding, attempted) == first_stray(
            sources.take(n),
            excluding,
            attempted,
        ),
    decreases sources.len(),
{
    if n == sources.len() {
        assert(sources.take(n) =~= sources);
    } else {
        assert(sources.drop_last().take(n) =~= sources.take(n));
        lemma_first_stray_of_a_start(sources.drop_last(), excluding, attempted, n);
    }
}

proof fn lemma_no_stray(sources: Seq<SourceRef>, excluding: Option<usize>, attempted: u64, i: int)
    requires
        first_stray(sources, excluding, attempted) is None,
        0 <= i < sources.len(),
        sources.len() <= usize::MAX,
    ensures
        excluding == Some(i as usize) || alike(sources[i].display_aspect, attempted),
    decreases sources.len(),
{
    if i < sources.len() - 1 {
        lemma_no_stray(sources.drop_last(), excluding, attempted, i);
        assert(sources.drop_last()[i] == sources[i]);
    }
}

/// **A project's videos share one shape**: a video that differs from none of
/// them can be added to them, or put in the place of the one left out, and every two
/// still do.
pub proof fn law_the_videos_share_one_shape(
    sources: Seq<SourceRef>,
    source: SourceRef,
    at: Option<usize>,
)
    requires
        sources.len() <= usize::MAX,
        one_shape(sources),
        first_stray(sources, at, source.display_aspect) is None,
        at is Some ==> at->0 < sources.len(),
    ensures
        one_shape(
            match at {
                Some(index) => sources.update(index as int, source),
                None => sources.push(source),
            },
        ),
{
    assert forall|i: int| 0 <= i < sources.len() && at != Some(i as usize) implies alike(
        (#[trigger] sources[i]).display_aspect,
        source.display_aspect,
    ) by {
        lemma_no_stray(sources, at, source.display_aspect, i);
    }
}

// ---------------------------------------------------------------------------
// Positions.

/// How far before a source's end a load may land: a twentieth of a second, so
/// a reload never starts at end of stream.
pub const END_MARGIN: i64 = 150_000_000;

/// A time inside a source, short of its end by [`END_MARGIN`].
pub open spec fn inside(at: int, duration: int) -> int {
    time::larger(time::smaller(at, duration - END_MARGIN), 0)
}

/// `at` inside a source of `duration`, short of its end by [`END_MARGIN`].
/// `None` is a time that isn't a number: such a position is the start, and
/// such a duration bounds nothing.
pub fn clamp_in_source(at: Option<i64>, duration: Option<i64>) -> (clamped: i64)
    ensures
        clamped == match (at, duration) {
            (None, _) => 0,
            (Some(t), None) => time::larger(t as int, 0),
            (Some(t), Some(d)) => inside(t as int, d as int),
        },
{
    match at {
        None => 0,
        Some(t) => {
            let bounded: i64 = match duration {
                None => t,
                Some(d) => {
                    let last: i128 = d as i128 - END_MARGIN as i128;
                    if (t as i128) < last {
                        t
                    } else if last < 0 {
                        0
                    } else {
                        last as i64
                    }
                },
            };
            if bounded < 0 {
                0
            } else {
                bounded
            }
        },
    }
}

/// Whether any source's file is missing.
pub open spec fn some_missing(missing: Seq<bool>) -> bool {
    exists|i: int| 0 <= i < missing.len() && missing[i]
}

/// Whether any source's file is missing.
pub fn any_missing(missing: &Vec<bool>) -> (any: bool)
    ensures
        any == some_missing(missing@),
{
    for i in 0..missing.len()
        invariant
            forall|k: int| 0 <= k < i ==> !missing@[k],
    {
        if missing[i] {
            return true;
        }
    }
    false
}

// ---------------------------------------------------------------------------
// List changes.

/// A clip or match event still uses the source.
#[derive(Debug, Clone, Copy, PartialEq, Eq, Structural)]
pub struct SourceReferenced {
    pub index: usize,
}

/// The index a source has once the one at `removed` is gone.
pub open spec fn after_removal(index: usize, removed: usize) -> usize {
    if index > removed {
        (index - 1) as usize
    } else {
        index
    }
}

/// The index a source has once the one at `from` was taken out and put back
/// in at `to`.
pub open spec fn after_move(index: usize, from: usize, to: usize) -> usize {
    if index == from {
        to
    } else if from < index <= to {
        (index - 1) as usize
    } else if to <= index < from {
        (index + 1) as usize
    } else {
        index
    }
}

/// Whether a clip or a match event is on a source.
pub open spec fn referenced(project: &Project, index: usize) -> bool {
    (exists|i: int| 0 <= i < project.clips@.len() && project.clips@[i].source_index == index) || (
    exists|i: int|
        0 <= i < project.match_events@.len() && project.match_events@[i].source_index == index)
}

/// A clip moved onto another source index.
pub open spec fn clip_on(clip: Clip, index: usize) -> Clip {
    Clip { source_index: index, ..clip }
}

/// A match event moved onto another source index.
pub open spec fn event_on(event: MatchEventRecord, index: usize) -> MatchEventRecord {
    MatchEventRecord { source_index: index, ..event }
}

fn index_after_removal(index: usize, removed: usize) -> (after: usize)
    ensures
        after == after_removal(index, removed),
{
    if index > removed {
        index - 1
    } else {
        index
    }
}

fn index_after_move(index: usize, from: usize, to: usize) -> (after: usize)
    ensures
        after == after_move(index, from, to),
{
    if index == from {
        to
    } else if from < index && index <= to {
        index - 1
    } else if to <= index && index < from {
        index + 1
    } else {
        index
    }
}

impl Project {
    /// Whether a clip or a match event is on source `index`.
    pub fn references_source(&self, index: usize) -> (used: bool)
        ensures
            used == referenced(self, index),
    {
        for i in 0..self.clips.len()
            invariant
                forall|k: int| 0 <= k < i ==> self.clips@[k].source_index != index,
        {
            if self.clips[i].source_index == index {
                return true;
            }
        }
        for i in 0..self.match_events.len()
            invariant
                forall|k: int| 0 <= k < i ==> self.match_events@[k].source_index != index,
        {
            if self.match_events[i].source_index == index {
                return true;
            }
        }
        false
    }

    /// Removes source `index`, moving everything on a later source down by
    /// one. Refused, with nothing changed, while a clip or match event is on
    /// it. `current` goes through the same change: `Ok` holds where it is now,
    /// or `None` if it was the source removed.
    pub fn remove_source(&mut self, index: usize, current: usize) -> (removed: Result<
        Option<usize>,
        SourceReferenced,
    >)
        requires
            index < old(self).source_videos@.len(),
        ensures
            referenced(old(self), index) ==> removed == Err::<Option<usize>, _>(
                SourceReferenced { index },
            ) && *final(self) == *old(self),
            !referenced(old(self), index) ==> {
                &&& removed == Ok::<_, SourceReferenced>(
                    if current == index {
                        None
                    } else {
                        Some(after_removal(current, index))
                    },
                )
                &&& final(self).source_videos@ == old(self).source_videos@.remove(index as int)
                &&& final(self).clips@ == old(self).clips@.map_values(
                    |c: Clip| clip_on(c, after_removal(c.source_index, index)),
                )
                &&& final(self).match_events@ == old(self).match_events@.map_values(
                    |e: MatchEventRecord| event_on(e, after_removal(e.source_index, index)),
                )
                &&& final(self).format_version == old(self).format_version
                &&& final(self).name == old(self).name
                &&& final(self).preferences == old(self).preferences
                &&& final(self).scoreboard == old(self).scoreboard
            },
    {
        if self.references_source(index) {
            return Err(SourceReferenced { index });
        }
        let ghost before = *self;
        self.source_videos.remove(index);
        let clips: usize = self.clips.len();
        for i in 0..clips
            invariant
                clips == self.clips@.len(),
                clips == before.clips@.len(),
                forall|k: int|
                    0 <= k < i ==> #[trigger] self.clips@[k] == clip_on(
                        before.clips@[k],
                        after_removal(before.clips@[k].source_index, index),
                    ),
                forall|k: int| i <= k < self.clips@.len() ==> self.clips@[k] == before.clips@[k],
                self.source_videos@ == before.source_videos@.remove(index as int),
                self.match_events == before.match_events,
                self.format_version == before.format_version,
                self.name == before.name,
                self.preferences == before.preferences,
                self.scoreboard == before.scoreboard,
        {
            let after: usize = index_after_removal(self.clips[i].source_index, index);
            self.clips[i].source_index = after;
        }
        let events: usize = self.match_events.len();
        for i in 0..events
            invariant
                events == self.match_events@.len(),
                events == before.match_events@.len(),
                forall|k: int|
                    0 <= k < i ==> #[trigger] self.match_events@[k] == event_on(
                        before.match_events@[k],
                        after_removal(before.match_events@[k].source_index, index),
                    ),
                forall|k: int|
                    i <= k < self.match_events@.len() ==> self.match_events@[k]
                        == before.match_events@[k],
                self.source_videos@ == before.source_videos@.remove(index as int),
                self.clips@ == before.clips@.map_values(
                    |c: Clip| clip_on(c, after_removal(c.source_index, index)),
                ),
                self.format_version == before.format_version,
                self.name == before.name,
                self.preferences == before.preferences,
                self.scoreboard == before.scoreboard,
        {
            let after: usize = index_after_removal(self.match_events[i].source_index, index);
            self.match_events[i].source_index = after;
        }
        Ok(
            if current == index {
                None
            } else {
                Some(index_after_removal(current, index))
            },
        )
    }

    /// Takes source `from` out and puts it back in at `to`, and everything on
    /// a source goes with it. Returns where `current` is now.
    pub fn move_source(&mut self, from: usize, to: usize, current: usize) -> (now: usize)
        requires
            from < old(self).source_videos@.len(),
            to < old(self).source_videos@.len(),
        ensures
            now == after_move(current, from, to),
            final(self).source_videos@ == old(self).source_videos@.remove(from as int).insert(
                to as int,
                old(self).source_videos@[from as int],
            ),
            final(self).clips@ == old(self).clips@.map_values(
                |c: Clip| clip_on(c, after_move(c.source_index, from, to)),
            ),
            final(self).match_events@ == old(self).match_events@.map_values(
                |e: MatchEventRecord| event_on(e, after_move(e.source_index, from, to)),
            ),
            final(self).format_version == old(self).format_version,
            final(self).name == old(self).name,
            final(self).preferences == old(self).preferences,
            final(self).scoreboard == old(self).scoreboard,
    {
        let ghost before = *self;
        let moved = self.source_videos.remove(from);
        self.source_videos.insert(to, moved);
        let clips: usize = self.clips.len();
        for i in 0..clips
            invariant
                clips == self.clips@.len(),
                clips == before.clips@.len(),
                forall|k: int|
                    0 <= k < i ==> #[trigger] self.clips@[k] == clip_on(
                        before.clips@[k],
                        after_move(before.clips@[k].source_index, from, to),
                    ),
                forall|k: int| i <= k < self.clips@.len() ==> self.clips@[k] == before.clips@[k],
                self.source_videos@ == before.source_videos@.remove(from as int).insert(
                    to as int,
                    before.source_videos@[from as int],
                ),
                self.match_events == before.match_events,
                self.format_version == before.format_version,
                self.name == before.name,
                self.preferences == before.preferences,
                self.scoreboard == before.scoreboard,
        {
            let after: usize = index_after_move(self.clips[i].source_index, from, to);
            self.clips[i].source_index = after;
        }
        let events: usize = self.match_events.len();
        for i in 0..events
            invariant
                events == self.match_events@.len(),
                events == before.match_events@.len(),
                forall|k: int|
                    0 <= k < i ==> #[trigger] self.match_events@[k] == event_on(
                        before.match_events@[k],
                        after_move(before.match_events@[k].source_index, from, to),
                    ),
                forall|k: int|
                    i <= k < self.match_events@.len() ==> self.match_events@[k]
                        == before.match_events@[k],
                self.source_videos@ == before.source_videos@.remove(from as int).insert(
                    to as int,
                    before.source_videos@[from as int],
                ),
                self.clips@ == before.clips@.map_values(
                    |c: Clip| clip_on(c, after_move(c.source_index, from, to)),
                ),
                self.format_version == before.format_version,
                self.name == before.name,
                self.preferences == before.preferences,
                self.scoreboard == before.scoreboard,
        {
            let after: usize = index_after_move(self.match_events[i].source_index, from, to);
            self.match_events[i].source_index = after;
        }
        index_after_move(current, from, to)
    }
}

/// **Everything stays on its own video**: after a removal, what was on a
/// source that stays is on the same source still.
pub proof fn law_a_removal_keeps_everything_on_its_source(
    sources: Seq<SourceRef>,
    index: usize,
    removed: usize,
)
    requires
        removed < sources.len(),
        index < sources.len(),
        index != removed,
    ensures
        after_removal(index, removed) < sources.remove(removed as int).len(),
        sources.remove(removed as int)[after_removal(index, removed) as int]
            == sources[index as int],
{
}

/// **Everything stays on its own video**: after a move, what was on a source
/// is on the same source still.
pub proof fn law_a_move_keeps_everything_on_its_source(
    sources: Seq<SourceRef>,
    index: usize,
    from: usize,
    to: usize,
)
    requires
        from < sources.len(),
        to < sources.len(),
        index < sources.len(),
    ensures
        after_move(index, from, to) < sources.len(),
        sources.remove(from as int).insert(to as int, sources[from as int])[after_move(
            index,
            from,
            to,
        ) as int] == sources[index as int],
{
}

/// **A move is undone by the move back.**
pub proof fn law_a_move_back_undoes_a_move(
    sources: Seq<SourceRef>,
    index: usize,
    from: usize,
    to: usize,
)
    requires
        from < sources.len(),
        to < sources.len(),
    ensures
        after_move(after_move(index, from, to), to, from) == index,
        ({
            let moved = sources.remove(from as int).insert(to as int, sources[from as int]);
            moved.remove(to as int).insert(from as int, moved[to as int]) == sources
        }),
{
    let moved = sources.remove(from as int).insert(to as int, sources[from as int]);
    assert(moved.remove(to as int).insert(from as int, moved[to as int]) =~= sources);
}

/// **A video of another shape is refused**: the first of the others that it
/// differs from by more than a hundredth is named, and where there is none it
/// is taken.
pub proof fn law_a_stray_shape_is_refused(
    sources: Seq<SourceRef>,
    excluding: Option<usize>,
    attempted: u64,
)
    requires
        sources.len() <= usize::MAX,
    ensures
        match first_stray(sources, excluding, attempted) {
            Some(i) => {
                &&& 0 <= i < sources.len()
                &&& excluding != Some(i as usize)
                &&& sources[i].display_aspect - attempted > 10_000_000 || attempted
                    - sources[i].display_aspect > 10_000_000
                &&& forall|k: int|
                    0 <= k < i && excluding != Some(k as usize) ==> -10_000_000 <= (
                    #[trigger] sources[k]).display_aspect - attempted <= 10_000_000
            },
            None => forall|k: int|
                0 <= k < sources.len() && excluding != Some(k as usize) ==> -10_000_000 <= (
                #[trigger] sources[k]).display_aspect - attempted <= 10_000_000,
        },
    decreases sources.len(),
{
    if sources.len() > 0 {
        let before = sources.drop_last();
        law_a_stray_shape_is_refused(before, excluding, attempted);
        assert forall|k: int| 0 <= k < before.len() implies before[k] == #[trigger] sources[k] by {}
    }
}

/// **A source is in use while anything is on it**, a clip or a match event,
/// and only then.
pub proof fn law_a_source_is_in_use_while_anything_is_on_it(project: &Project, index: usize)
    ensures
        forall|i: int|
            0 <= i < project.clips@.len() && (#[trigger] project.clips@[i]).source_index == index
                ==> referenced(project, index),
        forall|i: int|
            0 <= i < project.match_events@.len() && (
            #[trigger] project.match_events@[i]).source_index == index ==> referenced(
                project,
                index,
            ),
        (forall|i: int|
            0 <= i < project.clips@.len() ==> (#[trigger] project.clips@[i]).source_index
                != index) && (forall|i: int|
            0 <= i < project.match_events@.len() ==> (
            #[trigger] project.match_events@[i]).source_index != index) ==> !referenced(
            project,
            index,
        ),
{
}

/// **What moves to another source changes in nothing else.**
pub proof fn law_what_moves_changes_in_nothing_else(
    clip: Clip,
    event: MatchEventRecord,
    index: usize,
)
    ensures
        clip_on(clip, index).source_index == index,
        clip_on(clip, index) == (Clip { source_index: index, ..clip }),
        event_on(event, index).source_index == index,
        event_on(event, index) == (MatchEventRecord { source_index: index, ..event }),
{
}

/// **A relative path climbs no further than it has to**: out of the folders
/// that the two do not share, and down from the last they do.
pub proof fn law_a_relative_path_is_the_shortest(
    path: Seq<Seq<char>>,
    base: Seq<Seq<char>>,
    shared: int,
)
    requires
        0 <= shared <= path.len(),
        shared <= base.len(),
        forall|i: int| 0 <= i < shared ==> #[trigger] path[i] == base[i],
        shared < path.len() && shared < base.len() ==> path[shared] != base[shared],
    ensures
        way(path, base).len() == base.len() - shared + path.len() - shared,
        forall|i: int|
            0 <= i < base.len() - shared ==> #[trigger] way(path, base)[i] == seq!['.', '.'],
        forall|i: int|
            shared <= i < path.len() ==> way(path, base)[base.len() - shared + i - shared]
                == #[trigger] path[i],
    decreases shared,
{
    assert(common(path, base) == shared) by {
        lemma_common_is(path, base, shared);
    }
    assert(parent() =~= seq!['.', '.']);
}

proof fn lemma_common_is(path: Seq<Seq<char>>, base: Seq<Seq<char>>, shared: int)
    requires
        0 <= shared <= path.len(),
        shared <= base.len(),
        forall|i: int| 0 <= i < shared ==> #[trigger] path[i] == base[i],
        shared < path.len() && shared < base.len() ==> path[shared] != base[shared],
    ensures
        common(path, base) == shared,
    decreases shared,
{
    if shared > 0 {
        assert(path[0] == base[0]);
        let rest = path.drop_first();
        let under = base.drop_first();
        assert forall|i: int| 0 <= i < shared - 1 implies #[trigger] rest[i] == under[i] by {
            assert(path[i + 1] == base[i + 1]);
        }
        lemma_common_is(rest, under, shared - 1);
    }
}

/// **A path's names are what stands between its slashes**, all but the empty
/// ones and the single dots.
pub proof fn law_names_stand_between_slashes(parts: Seq<Seq<char>>)
    ensures
        names_among(parts) == parts.filter(
            |part: Seq<char>| part.len() > 0 && !(part.len() == 1 && part[0] == '.'),
        ),
    decreases parts.len(),
{
    reveal(Seq::filter);
    if parts.len() > 0 {
        law_names_stand_between_slashes(parts.drop_last());
        let part = parts.last();
        assert(is_name(part) == (part.len() > 0 && !(part.len() == 1 && part[0] == '.'))) by {
            if part.len() == 1 && part[0] == '.' {
                assert(part =~= seq!['.']);
            }
        }
    }
}

/// **A removed source takes nothing with it**: it goes only while nothing is on
/// it, and then every clip and match event is on the video it was on.
pub proof fn law_a_removed_source_takes_nothing_with_it(
    project: &mut Project,
    index: usize,
    current: usize,
    removed: Result<Option<usize>, SourceReferenced>,
    i: int,
)
    requires
        call_ensures(Project::remove_source, (project, index, current), removed),
        index < old(project).source_videos@.len(),
        current < old(project).source_videos@.len(),
    ensures
        ({
            let was = old(project).source_videos@;
            let now = final(project).source_videos@;
            let used = (exists|k: int|
                0 <= k < old(project).clips@.len() && (
                #[trigger] old(project).clips@[k]).source_index == index) || (exists|k: int|
                0 <= k < old(project).match_events@.len() && (
                #[trigger] old(project).match_events@[k]).source_index == index);
            &&& removed is Err <==> used
            &&& used ==> *final(project) == *old(project)
            &&& !used ==> {
                &&& now == was.take(index as int) + was.skip(index + 1)
                &&& final(project).clips@.len() == old(project).clips@.len()
                &&& final(project).match_events@.len() == old(project).match_events@.len()
                &&& 0 <= i < old(project).clips@.len() && old(project).clips@[i].source_index
                    < was.len() ==> final(project).clips@[i].source_index < now.len()
                    && now[final(project).clips@[i].source_index as int] == was[old(project).clips@[i].source_index as int] && final(project).clips@[i].id == old(project).clips@[i].id
                &&& 0 <= i < old(project).match_events@.len() && old(project).match_events@[i].source_index < was.len() ==> final(project).match_events@[i].source_index < now.len() && now[final(project).match_events@[i].source_index as int] == was[old(project).match_events@[i].source_index as int] && final(project).match_events@[i].id
                    == old(project).match_events@[i].id
                &&& current == index ==> removed->Ok_0 is None
                &&& current != index ==> removed->Ok_0 is Some && (removed->Ok_0->0) < now.len()
                    && now[removed->Ok_0->0 as int] == was[current as int]
            }
        }),
{
    let was = old(project).source_videos@;
    let used = (exists|k: int|
        0 <= k < old(project).clips@.len() && (#[trigger] old(project).clips@[k]).source_index
            == index) || (exists|k: int|
        0 <= k < old(project).match_events@.len() && (
        #[trigger] old(project).match_events@[k]).source_index == index);
    assert(used == referenced(old(project), index));
    assert(was.remove(index as int) =~= was.take(index as int) + was.skip(index + 1));
}

/// **A moved source takes everything with it**: it is at its new place, and
/// every clip and match event is on the video it was on.
pub proof fn law_a_moved_source_takes_everything_with_it(
    project: &mut Project,
    from: usize,
    to: usize,
    current: usize,
    shown: usize,
    i: int,
)
    requires
        call_ensures(Project::move_source, (project, from, to, current), shown),
        from < old(project).source_videos@.len(),
        to < old(project).source_videos@.len(),
        current < old(project).source_videos@.len(),
    ensures
        ({
            let was = old(project).source_videos@;
            let now = final(project).source_videos@;
            &&& now.len() == was.len()
            &&& now[to as int] == was[from as int]
            &&& now[shown as int] == was[current as int]
            &&& shown < now.len()
            &&& final(project).clips@.len() == old(project).clips@.len()
            &&& final(project).match_events@.len() == old(project).match_events@.len()
            &&& 0 <= i < old(project).clips@.len() && old(project).clips@[i].source_index
                < was.len() ==> final(project).clips@[i].source_index < now.len() && now[final(project).clips@[i].source_index as int] == was[old(project).clips@[i].source_index as int]
                && final(project).clips@[i].id == old(project).clips@[i].id
            &&& 0 <= i < old(project).match_events@.len() && old(project).match_events@[i].source_index < was.len() ==> final(project).match_events@[i].source_index < now.len() && now[final(project).match_events@[i].source_index as int] == was[old(project).match_events@[i].source_index as int] && final(project).match_events@[i].id == old(project).match_events@[i].id
        }),
{
}

/// **A place on a source stays on it**, and short of its last 0.05 s; without a
/// length it only stays past the start, and without a place it is the start.
pub proof fn law_a_place_stays_on_its_source(
    at: i64,
    duration: i64,
    placed: i64,
    unbounded: i64,
    unplaced: i64,
)
    requires
        call_ensures(clamp_in_source, (Some(at), Some(duration)), placed),
        call_ensures(clamp_in_source, (Some(at), None), unbounded),
        call_ensures(clamp_in_source, (None, Some(duration)), unplaced),
    ensures
        0 <= at <= duration - 150_000_000 ==> placed == at,
        at >= duration - 150_000_000 >= 0 ==> placed == duration - 150_000_000,
        at < 0 || duration < 150_000_000 ==> placed == 0,
        at >= 0 ==> unbounded == at,
        at < 0 ==> unbounded == 0,
        unplaced == 0,
{
}

/// **A shape is held against every other video's**: it passes if it is within a
/// hundredth of each, and otherwise the first it differs from is named.
pub proof fn law_a_shape_is_held_against_the_others(
    project: &Project,
    attempted: u64,
    excluding: Option<usize>,
    checked: Result<(), AspectMismatch>,
    k: int,
)
    requires
        call_ensures(Project::check_aspect, (project, attempted, excluding), checked),
        project.source_videos@.len() <= usize::MAX,
        0 <= k < project.source_videos@.len(),
        excluding != Some(k as usize),
    ensures
        checked is Ok ==> -10_000_000 <= project.source_videos@[k].display_aspect - attempted
            <= 10_000_000,
        checked matches Err(mismatch) ==> mismatch.attempted == attempted && (mismatch.existing
            - attempted > 10_000_000 || attempted - mismatch.existing > 10_000_000),
{
    law_a_stray_shape_is_refused(project.source_videos@, excluding, attempted);
}

/// **A file's name is what stands behind its last slash**, unless that names no
/// file.
pub proof fn law_a_file_s_name_stands_behind_its_last_slash(folder: Seq<char>, name: Seq<char>)
    requires
        !name.contains('/'),
        name.len() > 0,
        name != seq!['.'],
    ensures
        name != seq!['.', '.'] ==> last_name(folder.push('/') + name) == Some(name),
        name == seq!['.', '.'] ==> last_name(folder.push('/') + name) is None,
{
    let above = folder.push('/');
    assert(above.drop_last() =~= folder);
    let pieces = text::split_at(above, '/');
    assert(pieces == text::split_at(folder, '/').push(seq![]));
    text::lemma_split_extends(above, name, '/');
    assert(pieces.last() + name =~= name);
    let parts = text::split_at(above + name, '/');
    assert(parts.last() == name);
    assert(names_among(parts).last() == name);
}

/// **There is a way between any two absolute paths**, and between no others.
pub proof fn law_there_is_a_way_between_absolute_paths(
    path: &str,
    base: &str,
    relative: Option<String>,
)
    requires
        call_ensures(relative_path, (path, base), relative),
    ensures
        relative is Some <==> path@.len() > 0 && path@[0] == '/' && base@.len() > 0 && base@[0]
            == '/',
        relative matches Some(r) ==> r@ == text::joined(way(names(path@), names(base@)), "/"@),
{
}

} // verus!
