//! Slash-separated paths as a root flag and a sequence of names.
//!
//! A path is modelled by [`PathView`]: whether it starts at the root, and the
//! names that follow. Parsing drops empty names and the name `.`, so two
//! spellings of the same place have the same model.

use vstd::prelude::*;
use vstd::string::*;
use crate::text::{chars_of, copy_range, join, joined, owned, texts};

verus! {

/// The mathematical model of a path.
pub struct PathView {
    pub absolute: bool,
    pub components: Seq<Seq<char>>,
}

/// A run of characters between two slashes counts as a name unless it is
/// empty or a single dot.
pub open spec fn is_name(run: Seq<char>) -> bool {
    run.len() > 0 && run != seq!['.']
}

/// The run as a one-element sequence if it is a name, else nothing.
pub open spec fn taken(run: Seq<char>) -> Seq<Seq<char>> {
    if is_name(run) {
        seq![run]
    } else {
        Seq::empty()
    }
}

/// The names of `s` from position `at` on, where the run being read began at
/// `start`.
pub open spec fn names_from(s: Seq<char>, start: int, at: int) -> Seq<Seq<char>>
    recommends
        0 <= start <= at <= s.len(),
    decreases s.len() - at,
{
    if at >= s.len() {
        taken(s.subrange(start, s.len() as int))
    } else if s[at] == '/' {
        taken(s.subrange(start, at)) + names_from(s, at + 1, at + 1)
    } else {
        names_from(s, start, at + 1)
    }
}

/// The path that a text spells.
pub open spec fn parsed(s: Seq<char>) -> PathView {
    PathView { absolute: s.len() > 0 && s[0] == '/', components: names_from(s, 0, 0) }
}

impl PathView {
    /// Every component is a name and holds no slash.
    pub open spec fn wf(self) -> bool {
        forall|i: int|
            0 <= i < self.components.len() ==> is_name(#[trigger] self.components[i])
                && !self.components[i].contains('/')
    }

    /// The path one level up; none for the root and for the empty path.
    pub open spec fn parent(self) -> Option<PathView> {
        if self.components.len() == 0 {
            None
        } else {
            Some(PathView { absolute: self.absolute, components: self.components.drop_last() })
        }
    }

    /// The last component, if there is one.
    pub open spec fn file_name(self) -> Option<Seq<char>> {
        if self.components.len() == 0 {
            None
        } else {
            Some(self.components.last())
        }
    }

    /// `other` taken relative to `self`; an absolute `other` replaces `self`.
    pub open spec fn join(self, other: PathView) -> PathView {
        if other.absolute {
            other
        } else {
            PathView {
                absolute: self.absolute,
                components: self.components + other.components,
            }
        }
    }

    /// Where `self` lands when it is put into `directory` under its own
    /// name; a path without a name lands on the directory itself.
    pub open spec fn placed_in(self, directory: PathView) -> PathView {
        match self.file_name() {
            Some(name) => PathView {
                absolute: directory.absolute,
                components: directory.components.push(name),
            },
            None => directory,
        }
    }

    /// Whether `self` lies at or below `base`.
    pub open spec fn starts_with(self, base: PathView) -> bool {
        &&& self.absolute == base.absolute
        &&& base.components.len() <= self.components.len()
        &&& self.components.subrange(0, base.components.len() as int) == base.components
    }

    /// `self` relative to `base`, where it lies at or below `base`.
    pub open spec fn strip_prefix(self, base: PathView) -> Option<PathView> {
        if self.starts_with(base) {
            Some(
                PathView {
                    absolute: false,
                    components: self.components.subrange(
                        base.components.len() as int,
                        self.components.len() as int,
                    ),
                },
            )
        } else {
            None
        }
    }

    /// The path written out with slashes.
    pub open spec fn text(self) -> Seq<char> {
        if self.absolute {
            "/"@ + joined(self.components, "/"@)
        } else {
            joined(self.components, "/"@)
        }
    }
}

/// A path: a root flag and the names below it.
pub struct FilePath {
    absolute: bool,
    components: Vec<String>,
}

impl View for FilePath {
    type V = PathView;

    closed spec fn view(&self) -> PathView {
        PathView { absolute: self.absolute, components: texts(self.components@) }
    }
}

/// `extra` copied onto the end of `target`.
fn extend_copy(target: &mut Vec<String>, extra: &Vec<String>)
    ensures
        texts(final(target)@) == texts(old(target)@) + texts(extra@),
{
    let mut copy = copy_range(extra, 0, extra.len());
    assert(texts(extra@).subrange(0, extra.len() as int) =~= texts(extra@));
    let ghost first = texts(target@);
    let ghost second = texts(copy@);
    target.append(&mut copy);
    assert(texts(target@) =~= first + second);
}

impl Clone for FilePath {
    fn clone(&self) -> (out: Self)
        ensures
            out@ == self@,
    {
        let components = copy_range(&self.components, 0, self.components.len());
        assert(texts(self.components@).subrange(0, self.components.len() as int) =~= texts(
            self.components@,
        ));
        FilePath { absolute: self.absolute, components }
    }
}

proof fn lemma_run_without_slash(s: Seq<char>, start: int, end: int)
    requires
        0 <= start <= end <= s.len(),
        forall|k: int| start <= k < end ==> s[k] != '/',
    ensures
        !s.subrange(start, end).contains('/'),
{
    let run = s.subrange(start, end);
    if run.contains('/') {
        let k = choose|k: int| 0 <= k < run.len() && run[k] == '/';
        assert(s[start + k] == '/');
    }
}

proof fn lemma_names_are_well_formed(s: Seq<char>, start: int, at: int)
    requires
        0 <= start <= at <= s.len(),
        forall|k: int| start <= k < at ==> s[k] != '/',
    ensures
        forall|i: int|
            0 <= i < names_from(s, start, at).len() ==> is_name(
                #[trigger] names_from(s, start, at)[i],
            ) && !names_from(s, start, at)[i].contains('/'),
    decreases s.len() - at,
{
    let all = names_from(s, start, at);
    if at >= s.len() {
        lemma_run_without_slash(s, start, at);
        assert(all == taken(s.subrange(start, at)));
        assert forall|i: int| 0 <= i < all.len() implies is_name(#[trigger] all[i])
            && !all[i].contains('/') by {
            assert(all[i] == s.subrange(start, at));
        }
    } else if s[at] == '/' {
        lemma_run_without_slash(s, start, at);
        lemma_names_are_well_formed(s, at + 1, at + 1);
        let head = taken(s.subrange(start, at));
        let tail = names_from(s, at + 1, at + 1);
        assert(all == head + tail);
        assert forall|i: int| 0 <= i < all.len() implies is_name(#[trigger] all[i])
            && !all[i].contains('/') by {
            if i < head.len() {
                assert(all[i] == s.subrange(start, at));
            } else {
                assert(all[i] == tail[i - head.len()]);
            }
        }
    } else {
        lemma_names_are_well_formed(s, start, at + 1);
        assert(all == names_from(s, start, at + 1));
    }
}

/// Whatever text is parsed, the result is well formed.
pub proof fn lemma_parsed_is_well_formed(s: Seq<char>)
    ensures
        parsed(s).wf(),
{
    lemma_names_are_well_formed(s, 0, 0);
}

impl FilePath {
    /// The empty relative path.
    pub fn empty() -> (out: FilePath)
        ensures
            out@ == (PathView { absolute: false, components: Seq::empty() }),
    {
        let components: Vec<String> = Vec::new();
        assert(texts(components@) =~= Seq::<Seq<char>>::empty());
        FilePath { absolute: false, components }
    }

    /// Reads a path from its text: names are the runs between slashes, empty
    /// runs and single dots are skipped, a leading slash makes it absolute.
    pub fn parse(text: &str) -> (out: FilePath)
        ensures
            out@ == parsed(text@),
            out@.wf(),
    {
        let chars = chars_of(text);
        let n: usize = chars.len();
        let mut components: Vec<String> = Vec::new();
        let mut start: usize = 0;
        let mut at: usize = 0;
        while at < n
            invariant
                chars@ == text@,
                n == chars.len(),
                start <= at <= n,
                texts(components@) + names_from(text@, start as int, at as int) == names_from(
                    text@,
                    0,
                    0,
                ),
            decreases n - at,
        {
            if chars[at] == '/' {
                let ghost before = texts(components@);
                if at > start && !(at - start == 1 && chars[start] == '.') {
                    let run = text.substring_char(start, at);
                    assert(run@ != seq!['.']) by {
                        if at - start == 1 {
                            assert(run@[0] == text@[start as int]);
                        } else {
                            assert(run@.len() != 1);
                        }
                    }
                    components.push(owned(run));
                    assert(texts(components@) =~= before + taken(
                        text@.subrange(start as int, at as int),
                    ));
                } else {
                    assert(!is_name(text@.subrange(start as int, at as int))) by {
                        if at > start {
                            assert(text@.subrange(start as int, at as int) =~= seq!['.']);
                        }
                    }
                    assert(texts(components@) =~= before + taken(
                        text@.subrange(start as int, at as int),
                    ));
                }
                assert((before + taken(text@.subrange(start as int, at as int))) + names_from(
                    text@,
                    at + 1,
                    at + 1,
                ) =~= before + names_from(text@, start as int, at as int));
                start = at + 1;
            }
            at = at + 1;
        }
        let ghost before = texts(components@);
        if n > start && !(n - start == 1 && chars[start] == '.') {
            let run = text.substring_char(start, n);
            assert(run@ != seq!['.']) by {
                if n - start == 1 {
                    assert(run@[0] == text@[start as int]);
                } else {
                    assert(run@.len() != 1);
                }
            }
            components.push(owned(run));
            assert(texts(components@) =~= before + taken(text@.subrange(start as int, n as int)));
        } else {
            assert(!is_name(text@.subrange(start as int, n as int))) by {
                if n > start {
                    assert(text@.subrange(start as int, n as int) =~= seq!['.']);
                }
            }
            assert(texts(components@) =~= before + taken(text@.subrange(start as int, n as int)));
        }
        proof {
            lemma_parsed_is_well_formed(text@);
        }
        let absolute = n > 0 && chars[0] == '/';
        FilePath { absolute, components }
    }

    /// Whether the path starts at the root.
    pub fn is_absolute(&self) -> (out: bool)
        ensures
            out == self@.absolute,
    {
        self.absolute
    }

    /// The number of names in the path.
    pub fn depth(&self) -> (out: usize)
        ensures
            out == self@.components.len(),
    {
        self.components.len()
    }

    /// The name at position `i`.
    pub fn component(&self, i: usize) -> (out: &String)
        requires
            i < self@.components.len(),
        ensures
            out@ == self@.components[i as int],
    {
        &self.components[i]
    }

    /// The path written out with slashes.
    pub fn to_text(&self) -> (out: String)
        ensures
            out@ == self@.text(),
    {
        let body = join(&self.components, "/");
        if self.absolute {
            let mut out = owned("/");
            out.append(body.as_str());
            out
        } else {
            body
        }
    }

    /// The last name of the path, if it has one.
    pub fn file_name(&self) -> (out: Option<String>)
        ensures
            out is Some == self@.file_name() is Some,
            out is Some ==> out->0@ == self@.file_name()->0,
    {
        let n = self.components.len();
        if n == 0 {
            None
        } else {
            Some(self.components[n - 1].clone())
        }
    }

    /// The path one level up; `None` for the root and for the empty path.
    pub fn parent(&self) -> (out: Option<FilePath>)
        ensures
            out is Some == self@.parent() is Some,
            out is Some ==> out->0@ == self@.parent()->0,
            self@.wf() && out is Some ==> out->0@.wf(),
    {
        let n = self.components.len();
        if n == 0 {
            None
        } else {
            let components = copy_range(&self.components, 0, n - 1);
            assert(texts(self.components@).subrange(0, n - 1) =~= texts(
                self.components@,
            ).drop_last());
            Some(FilePath { absolute: self.absolute, components })
        }
    }

    /// `other` taken relative to `self`; an absolute `other` replaces `self`.
    pub fn join(&self, other: &FilePath) -> (out: FilePath)
        ensures
            out@ == self@.join(other@),
            self@.wf() && other@.wf() ==> out@.wf(),
    {
        if other.absolute {
            other.clone()
        } else {
            let mut components = copy_range(&self.components, 0, self.components.len());
            assert(texts(self.components@).subrange(0, self.components.len() as int) =~= texts(
                self.components@,
            ));
            extend_copy(&mut components, &other.components);
            let out = FilePath { absolute: self.absolute, components };
            proof {
                let a = self@.components;
                let b = other@.components;
                if self@.wf() && other@.wf() {
                    assert forall|i: int| 0 <= i < (a + b).len() implies is_name(
                        #[trigger] (a + b)[i],
                    ) && !(a + b)[i].contains('/') by {
                        if i < a.len() {
                            assert((a + b)[i] == a[i]);
                        } else {
                            assert((a + b)[i] == b[i - a.len()]);
                        }
                    }
                }
            }
            out
        }
    }

    /// Where `self` lands when it is put into `directory` under its own
    /// name.
    pub fn placed_in(&self, directory: &FilePath) -> (out: FilePath)
        ensures
            out@ == self@.placed_in(directory@),
            self@.wf() && directory@.wf() ==> out@.wf(),
    {
        let n = self.components.len();
        let mut out = directory.clone();
        if n > 0 {
            let ghost before = texts(out.components@);
            let name = self.components[n - 1].clone();
            assert(name@ == texts(self.components@)[n - 1]);
            out.components.push(name);
            assert(texts(out.components@) =~= before.push(name@));
            proof {
                let all = texts(out.components@);
                if self@.wf() && directory@.wf() {
                    assert forall|i: int| 0 <= i < all.len() implies is_name(#[trigger] all[i])
                        && !all[i].contains('/') by {
                        if i < before.len() {
                            assert(all[i] == directory@.components[i]);
                        } else {
                            assert(all[i] == self@.components[n - 1]);
                        }
                    }
                }
            }
        }
        out
    }

    /// Whether the two paths name the same place.
    pub fn same_as(&self, other: &FilePath) -> (out: bool)
        ensures
            out == (self@ == other@),
    {
        if self.absolute != other.absolute || self.components.len() != other.components.len() {
            assert(self@.components.len() == self.components.len());
            assert(other@.components.len() == other.components.len());
            return false;
        }
        let mut i: usize = 0;
        while i < self.components.len()
            invariant
                i <= self.components.len(),
                self.components.len() == other.components.len(),
                texts(self.components@).subrange(0, i as int) == texts(
                    other.components@,
                ).subrange(0, i as int),
            decreases self.components.len() - i,
        {
            if self.components[i] != other.components[i] {
                assert(texts(self.components@)[i as int] != texts(other.components@)[i as int]);
                return false;
            }
            i = i + 1;
            assert(texts(self.components@).subrange(0, i as int) =~= texts(
                other.components@,
            ).subrange(0, i as int)) by {
                assert forall|k: int| 0 <= k < i implies texts(self.components@)[k] == texts(
                    other.components@,
                )[k] by {
                    if k < i - 1 {
                        assert(texts(self.components@).subrange(0, i - 1)[k] == texts(
                            other.components@,
                        ).subrange(0, i - 1)[k]);
                    }
                }
            }
        }
        assert(texts(self.components@).subrange(0, i as int) =~= texts(self.components@));
        assert(texts(other.components@).subrange(0, i as int) =~= texts(other.components@));
        true
    }

    /// Whether `self` lies at or below `base`.
    pub fn starts_with(&self, base: &FilePath) -> (out: bool)
        ensures
            out == self@.starts_with(base@),
    {
        if self.absolute != base.absolute || base.components.len() > self.components.len() {
            return false;
        }
        let m = base.components.len();
        let mut i: usize = 0;
        while i < m
            invariant
                i <= m,
                m == base.components.len(),
                m <= self.components.len(),
                texts(self.components@).subrange(0, i as int) == texts(
                    base.components@,
                ).subrange(0, i as int),
            decreases m - i,
        {
            if self.components[i] != base.components[i] {
                assert(texts(self.components@).subrange(0, m as int)[i as int] != texts(
                    base.components@,
                )[i as int]);
                return false;
            }
            i = i + 1;
            assert(texts(self.components@).subrange(0, i as int) =~= texts(
                base.components@,
            ).subrange(0, i as int)) by {
                assert forall|k: int| 0 <= k < i implies texts(self.components@)[k] == texts(
                    base.components@,
                )[k] by {
                    if k < i - 1 {
                        assert(texts(self.components@).subrange(0, i - 1)[k] == texts(
                            base.components@,
                        ).subrange(0, i - 1)[k]);
                    }
                }
            }
        }
        assert(texts(base.components@).subrange(0, i as int) =~= texts(base.components@));
        true
    }

    /// `self` relative to `base`; `None` unless `self` lies at or below
    /// `base`.
    pub fn strip_prefix(&self, base: &FilePath) -> (out: Option<FilePath>)
        ensures
            out is Some == self@.strip_prefix(base@) is Some,
            out is Some ==> out->0@ == self@.strip_prefix(base@)->0,
            self@.wf() && out is Some ==> out->0@.wf(),
    {
        if !self.starts_with(base) {
            return None;
        }
        let m = base.components.len();
        let n = self.components.len();
        let components = copy_range(&self.components, m, n);
        proof {
            let all = self@.components;
            let rest = all.subrange(m as int, n as int);
            if self@.wf() {
                assert forall|i: int| 0 <= i < rest.len() implies is_name(#[trigger] rest[i])
                    && !rest[i].contains('/') by {
                    assert(rest[i] == all[m + i]);
                }
            }
        }
        Some(FilePath { absolute: false, components })
    }
}

} // verus!
