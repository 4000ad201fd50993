//! Animation tags: the vocabulary that names them, case-insensitive lookup,
//! and the registry of frame windows built from a document.

use vstd::prelude::*;

use crate::sheet::{AnimationDirections, SheetError, SpriteInfo, TagInfo};

verus! {

/// The code of a character with ASCII upper case folded to lower case.
pub open spec fn fold_char(c: char) -> u32 {
    if 65 <= (c as u32) && (c as u32) <= 90 {
        ((c as u32) + 32) as u32
    } else {
        c as u32
    }
}

/// Equality of two texts, ASCII letters compared without regard to case.
pub open spec fn eq_ignore_case(a: Seq<char>, b: Seq<char>) -> bool {
    a.len() == b.len() && forall|i: int| 0 <= i < a.len() ==> fold_char(a[i]) == fold_char(b[i])
}

/// No two names of the vocabulary are equal when case is ignored.
pub open spec fn distinct_ignoring_case(names: Seq<Seq<char>>) -> bool {
    forall|i: int, j: int|
        0 <= i < names.len() && 0 <= j < names.len() && i != j ==> !eq_ignore_case(
            #[trigger] names[i],
            #[trigger] names[j],
        )
}

/// Whether `s` names tag `t` of the vocabulary.
pub open spec fn names_tag(names: Seq<Seq<char>>, s: Seq<char>, t: int) -> bool {
    0 <= t < names.len() && eq_ignore_case(names[t], s)
}

/// The tag that `s` names, if any.
pub open spec fn tag_of(names: Seq<Seq<char>>, s: Seq<char>) -> Option<int> {
    if exists|t: int| names_tag(names, s, t) {
        Some(choose|t: int| names_tag(names, s, t))
    } else {
        None
    }
}

fn fold_code(c: char) -> (r: u32)
    ensures
        r == fold_char(c),
{
    let x = c as u32;
    if 65 <= x && x <= 90 {
        x + 32
    } else {
        x
    }
}

/// Compares two texts, ASCII letters without regard to case.
pub fn text_eq_ignore_case(a: &str, b: &str) -> (r: bool)
    ensures
        r == eq_ignore_case(a@, b@),
{
    let n = a.unicode_len();
    let m = b.unicode_len();
    if n != m {
        return false;
    }
    let mut i: usize = 0;
    while i < n
        invariant
            n == a@.len(),
            m == b@.len(),
            n == m,
            i <= n,
            forall|k: int| 0 <= k < i ==> fold_char(a@[k]) == fold_char(b@[k]),
        decreases n - i,
    {
        if fold_code(a.get_char(i)) != fold_code(b.get_char(i)) {
            return false;
        }
        i = i + 1;
    }
    true
}

/// The canonical names of the animation tags; a tag is its position here.
pub struct TagVocabulary {
    names: Vec<String>,
}

impl View for TagVocabulary {
    type V = Seq<Seq<char>>;

    closed spec fn view(&self) -> Seq<Seq<char>> {
        Seq::new(self.names@.len(), |i: int| self.names@[i]@)
    }
}

impl TagVocabulary {
    pub open spec fn wf(&self) -> bool {
        distinct_ignoring_case(self@)
    }

    /// A vocabulary of the given names, or `None` where two of them are equal
    /// without regard to case.
    pub fn new(names: Vec<String>) -> (r: Option<TagVocabulary>)
        ensures
            r is Some <==> distinct_ignoring_case(Seq::new(names@.len(), |i: int| names@[i]@)),
            r matches Some(v) ==> v.wf() && v@ == Seq::new(names@.len(), |i: int| names@[i]@),
    {
        let ghost view = Seq::new(names@.len(), |i: int| names@[i]@);
        let n = names.len();
        let mut i: usize = 0;
        while i < n
            invariant
                n == names@.len(),
                view == Seq::new(names@.len(), |i: int| names@[i]@),
                i <= n,
                forall|p: int, q: int|
                    0 <= p < i && 0 <= q < n && p != q ==> !eq_ignore_case(view[p], view[q]),
            decreases n - i,
        {
            let mut j: usize = 0;
            while j < n
                invariant
                    n == names@.len(),
                    view == Seq::new(names@.len(), |i: int| names@[i]@),
                    i < n,
                    j <= n,
                    forall|p: int, q: int|
                        0 <= p < i && 0 <= q < n && p != q ==> !eq_ignore_case(view[p], view[q]),
                    forall|q: int| 0 <= q < j && i != q ==> !eq_ignore_case(view[i as int], view[q]),
                decreases n - j,
            {
                if i != j && text_eq_ignore_case(names[i].as_str(), names[j].as_str()) {
                    proof {
                        assert(eq_ignore_case(view[i as int], view[j as int]));
                    }
                    return None;
                }
                j = j + 1;
            }
            i = i + 1;
        }
        Some(TagVocabulary { names })
    }

    /// The number of tags.
    pub fn len(&self) -> (r: usize)
        ensures
            r == self@.len(),
    {
        self.names.len()
    }

    /// The tag that `s` names, ignoring ASCII case.
    pub fn parse(&self, s: &str) -> (r: Option<usize>)
        requires
            self.wf(),
        ensures
            match r {
                Some(t) => tag_of(self@, s@) == Some(t as int),
                None => tag_of(self@, s@) is None,
            },
    {
        let n = self.names.len();
        let mut i: usize = 0;
        while i < n
            invariant
                n == self@.len(),
                self.wf(),
                i <= n,
                forall|k: int| 0 <= k < i ==> !names_tag(self@, s@, k),
            decreases n - i,
        {
            if text_eq_ignore_case(self.names[i].as_str(), s) {
                proof {
                    assert(names_tag(self@, s@, i as int));
                    lemma_tag_unique(self@, s@, i as int);
                }
                return Some(i);
            }
            i = i + 1;
        }
        None
    }
}

/// Case-insensitive equality is symmetric and transitive.
proof fn lemma_eq_ignore_case_chain(a: Seq<char>, b: Seq<char>, c: Seq<char>)
    requires
        eq_ignore_case(a, b),
        eq_ignore_case(c, b),
    ensures
        eq_ignore_case(a, c),
{
    assert forall|i: int| 0 <= i < a.len() implies fold_char(a[i]) == fold_char(c[i]) by {
        assert(fold_char(a[i]) == fold_char(b[i]));
        assert(fold_char(c[i]) == fold_char(b[i]));
    }
}

/// In a vocabulary of distinct names a text names at most one tag.
proof fn lemma_tag_unique(names: Seq<Seq<char>>, s: Seq<char>, t: int)
    requires
        distinct_ignoring_case(names),
        names_tag(names, s, t),
    ensures
        tag_of(names, s) == Some(t),
{
    let u = choose|u: int| names_tag(names, s, u);
    if u != t {
        lemma_eq_ignore_case_chain(names[t], s, names[u]);
        assert(!eq_ignore_case(names[t], names[u]));
    }
}


/// The inclusive frame window of one tag.
#[derive(Debug, Clone, Copy, PartialEq, Eq, Structural)]
pub struct FrameRange {
    pub from: usize,
    pub to: usize,
    pub direction: AnimationDirections,
}

impl FrameRange {
    /// The number of frames in the window, `to - from + 1`.
    pub fn length(&self) -> (r: u128)
        requires
            self.from <= self.to,
        ensures
            r == self.to - self.from + 1,
    {
        (self.to - self.from) as u128 + 1
    }
}

/// The frame window of each tag, by tag; built from a document's tag list.
pub struct AnimationLayerInfo {
    ranges: Vec<Option<FrameRange>>,
}

impl View for AnimationLayerInfo {
    type V = Seq<Option<FrameRange>>;

    closed spec fn view(&self) -> Seq<Option<FrameRange>> {
        self.ranges@
    }
}

/// Every window of the registry is non-empty.
pub open spec fn ranges_valid(reg: Seq<Option<FrameRange>>) -> bool {
    forall|t: int| 0 <= t < reg.len() && (#[trigger] reg[t]) is Some ==> reg[t]->0.from <= reg[t]->0.to
}

/// What reading the tag list `tags` in order yields: each entry's name must
/// name a tag of `names` that no earlier entry named, with `from <= to`.
pub open spec fn registry_of(names: Seq<Seq<char>>, tags: Seq<TagInfo>) -> Result<
    Seq<Option<FrameRange>>,
    SheetError,
>
    decreases tags.len(),
{
    if tags.len() == 0 {
        Ok(Seq::new(names.len(), |i: int| None))
    } else {
        match registry_of(names, tags.drop_last()) {
            Err(e) => Err(e),
            Ok(reg) => {
                let t = tags.last();
                match tag_of(names, t.name@) {
                    None => Err(SheetError::UnknownAnimationTag),
                    Some(k) => if reg[k] is Some {
                        Err(SheetError::DuplicateAnimationTag)
                    } else if t.to < t.from {
                        Err(SheetError::InvalidFrameRange)
                    } else {
                        Ok(reg.update(k, Some(FrameRange { from: t.from, to: t.to, direction: t.direction })))
                    },
                }
            },
        }
    }
}

/// A failure on a prefix of the tag list is the failure of the whole list.
proof fn lemma_registry_error_persists(names: Seq<Seq<char>>, tags: Seq<TagInfo>, i: int)
    requires
        0 <= i <= tags.len(),
        registry_of(names, tags.subrange(0, i)) is Err,
    ensures
        registry_of(names, tags) == registry_of(names, tags.subrange(0, i)),
    decreases tags.len() - i,
{
    if i < tags.len() {
        assert(tags.subrange(0, i + 1).drop_last() =~= tags.subrange(0, i));
        lemma_registry_error_persists(names, tags, i + 1);
    } else {
        assert(tags.subrange(0, i) =~= tags);
    }
}

/// A successful registry has one entry per tag, each window non-empty.
proof fn lemma_registry_shape(names: Seq<Seq<char>>, tags: Seq<TagInfo>)
    requires
        registry_of(names, tags) is Ok,
    ensures
        registry_of(names, tags)->Ok_0.len() == names.len(),
        ranges_valid(registry_of(names, tags)->Ok_0),
    decreases tags.len(),
{
    if tags.len() > 0 {
        lemma_registry_shape(names, tags.drop_last());
    }
}

impl AnimationLayerInfo {
    pub open spec fn wf(&self) -> bool {
        ranges_valid(self@)
    }

    /// The number of tags the registry covers.
    pub fn len(&self) -> (r: usize)
        ensures
            r == self@.len(),
    {
        self.ranges.len()
    }

    /// The frame window of tag `t`, if the document declared one.
    pub fn get(&self, t: usize) -> (r: Option<FrameRange>)
        ensures
            r == (if t < self@.len() { self@[t as int] } else { None }),
    {
        if t < self.ranges.len() {
            self.ranges[t]
        } else {
            None
        }
    }
}

impl SpriteInfo {
    /// Builds the registry of frame windows from the document's tag list.
    pub fn extract_animation_tag_info(&self, vocab: &TagVocabulary) -> (r: Result<
        AnimationLayerInfo,
        SheetError,
    >)
        requires
            vocab.wf(),
        ensures
            match r {
                Ok(reg) => registry_of(vocab@, self.meta.frame_tags@) == Ok::<
                    Seq<Option<FrameRange>>,
                    SheetError,
                >(reg@) && reg.wf() && reg@.len() == vocab@.len(),
                Err(e) => registry_of(vocab@, self.meta.frame_tags@) == Err::<
                    Seq<Option<FrameRange>>,
                    SheetError,
                >(e),
            },
    {
        let tags = &self.meta.frame_tags;
        let n = vocab.len();
        let mut ranges: Vec<Option<FrameRange>> = Vec::new();
        let mut k: usize = 0;
        while k < n
            invariant
                n == vocab@.len(),
                k <= n,
                ranges@ == Seq::new(k as nat, |i: int| None::<FrameRange>),
            decreases n - k,
        {
            ranges.push(None);
            k = k + 1;
        }
        assert(tags@.subrange(0, 0) =~= Seq::<TagInfo>::empty());
        let m = tags.len();
        let mut i: usize = 0;
        while i < m
            invariant
                m == tags@.len(),
                tags@ == self.meta.frame_tags@,
                i <= m,
                vocab.wf(),
                registry_of(vocab@, tags@.subrange(0, i as int)) == Ok::<
                    Seq<Option<FrameRange>>,
                    SheetError,
                >(ranges@),
            decreases m - i,
        {
            proof {
                assert(tags@.subrange(0, i + 1).drop_last() =~= tags@.subrange(0, i as int));
                assert(tags@.subrange(0, i + 1).last() == tags@[i as int]);
                lemma_registry_shape(vocab@, tags@.subrange(0, i as int));
            }
            let tag = &tags[i];
            match vocab.parse(tag.name.as_str()) {
                None => {
                    proof {
                        lemma_registry_error_persists(vocab@, tags@, i + 1);
                    }
                    return Err(SheetError::UnknownAnimationTag);
                },
                Some(t) => {
                    if ranges[t].is_some() {
                        proof {
                            lemma_registry_error_persists(vocab@, tags@, i + 1);
                        }
                        return Err(SheetError::DuplicateAnimationTag);
                    }
                    if tag.to < tag.from {
                        proof {
                            lemma_registry_error_persists(vocab@, tags@, i + 1);
                        }
                        return Err(SheetError::InvalidFrameRange);
                    }
                    ranges.set(t, Some(FrameRange { from: tag.from, to: tag.to, direction: tag.direction }));
                },
            }
            i = i + 1;
        }
        proof {
            assert(tags@.subrange(0, m as int) =~= tags@);
            lemma_registry_shape(vocab@, tags@);
        }
        Ok(AnimationLayerInfo { ranges })
    }
}

/// The animation states of the bomb sprite.
#[derive(Debug, Clone, Copy, PartialEq, Eq, Structural, Hash)]
pub enum BombState {
    Idle,
    Fuse,
}

impl BombState {
    /// The tag of each state in [`BombState::vocabulary`].
    pub open spec fn spec_tag(self) -> usize {
        match self {
            BombState::Idle => 0,
            BombState::Fuse => 1,
        }
    }

    /// The tag of this state in [`BombState::vocabulary`].
    pub fn tag(self) -> (r: usize)
        ensures
            r == self.spec_tag(),
    {
        match self {
            BombState::Idle => 0,
            BombState::Fuse => 1,
        }
    }

    /// The state with the given tag.
    pub fn from_tag(t: usize) -> (r: Option<BombState>)
        ensures
            r matches Some(b) ==> b.spec_tag() == t,
            r is Some <==> t < 2,
    {
        if t == 0 {
            Some(BombState::Idle)
        } else if t == 1 {
            Some(BombState::Fuse)
        } else {
            None
        }
    }

    /// The canonical names of the states, `IDLE` and `FUSE`, in tag order.
    pub fn vocabulary() -> (r: TagVocabulary)
        ensures
            r.wf(),
            r@ == seq!["IDLE"@, "FUSE"@],
    {
        proof {
            reveal_strlit("IDLE");
            reveal_strlit("FUSE");
        }
        let names: Vec<String> = vec!["IDLE".to_owned(), "FUSE".to_owned()];
        let r = TagVocabulary { names };
        assert(r@ =~= seq!["IDLE"@, "FUSE"@]);
        assert(!eq_ignore_case(r@[0], r@[1])) by {
            assert(fold_char(r@[0][0]) != fold_char(r@[1][0]));
        }
        assert(!eq_ignore_case(r@[1], r@[0])) by {
            assert(fold_char(r@[0][0]) != fold_char(r@[1][0]));
        }
        r
    }
}

} // verus!
