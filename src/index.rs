//! The per-layer frame index: for each layer, the frames of each tag in
//! document order, and the layer's z-order.

use vstd::prelude::*;

use crate::filename::{decode_filename, decode_spec};
use crate::sheet::{declared_layers, frame_names, LayerInfo, LayerName, SheetError, SpriteInfo};
use crate::tags::{AnimationLayerInfo, FrameRange, TagVocabulary};

verus! {

/// A frame name as the indexer reads it: decoded, and its tag holding a frame
/// window in the registry `reg`.
pub open spec fn frame_decode(names: Seq<Seq<char>>, reg: Seq<Option<FrameRange>>, s: Seq<char>) -> Result<
    (int, Seq<char>),
    SheetError,
> {
    match decode_spec(names, s) {
        Ok((t, l)) => if 0 <= t < reg.len() && reg[t] is Some {
            Ok((t, l))
        } else {
            Err(SheetError::UnknownAnimationTag)
        },
        Err(e) => Err(e),
    }
}

/// The failure of the first frame name that cannot be read, if any.
pub open spec fn decode_failure(
    names: Seq<Seq<char>>,
    reg: Seq<Option<FrameRange>>,
    fnames: Seq<Seq<char>>,
) -> Option<SheetError>
    decreases fnames.len(),
{
    if fnames.len() == 0 {
        None
    } else {
        match decode_failure(names, reg, fnames.drop_last()) {
            Some(e) => Some(e),
            None => match frame_decode(names, reg, fnames.last()) {
                Err(e) => Some(e),
                Ok(_) => None,
            },
        }
    }
}

/// Some frame of `fnames` belongs to layer `l`.
pub open spec fn layer_used(
    names: Seq<Seq<char>>,
    reg: Seq<Option<FrameRange>>,
    fnames: Seq<Seq<char>>,
    l: Seq<char>,
) -> bool {
    exists|p: int|
        0 <= p < fnames.len() && (#[trigger] frame_decode(names, reg, fnames[p])) is Ok
            && frame_decode(names, reg, fnames[p])->Ok_0.1 == l
}

/// The positions, ascending, of the frames of layer `l` and tag `t`.
pub open spec fn frames_for(
    names: Seq<Seq<char>>,
    reg: Seq<Option<FrameRange>>,
    fnames: Seq<Seq<char>>,
    l: Seq<char>,
    t: int,
) -> Seq<usize>
    decreases fnames.len(),
{
    if fnames.len() == 0 {
        Seq::empty()
    } else {
        let rest = frames_for(names, reg, fnames.drop_last(), l, t);
        if frame_decode(names, reg, fnames.last()) == Ok::<(int, Seq<char>), SheetError>((t, l)) {
            rest.push((fnames.len() - 1) as usize)
        } else {
            rest
        }
    }
}

/// `p` is the first position of `l` among the declared layers.
pub open spec fn first_declared(declared: Seq<Seq<char>>, l: Seq<char>, p: int) -> bool {
    0 <= p < declared.len() && declared[p] == l && forall|q: int| 0 <= q < p ==> declared[q] != l
}

/// The z-order of layer `l`: its first position among the declared layers,
/// counted from 1.
pub open spec fn z_order_of(declared: Seq<Seq<char>>, l: Seq<char>) -> Option<int> {
    if exists|p: int| first_declared(declared, l, p) {
        Some((choose|p: int| first_declared(declared, l, p)) + 1)
    } else {
        None
    }
}

/// What the index holds of one layer.
pub struct LayerView {
    pub name: Seq<char>,
    pub z_order: int,
    /// By tag: the positions in the document of the layer's frames.
    pub frames: Seq<Seq<usize>>,
}

/// One layer of the index.
pub struct LayerFrames {
    name: LayerName,
    z_order: usize,
    frames: Vec<Vec<usize>>,
}

impl View for LayerFrames {
    type V = LayerView;

    closed spec fn view(&self) -> LayerView {
        LayerView {
            name: self.name.view(),
            z_order: self.z_order as int,
            frames: Seq::new(self.frames@.len(), |t: int| self.frames@[t]@),
        }
    }
}

impl LayerFrames {
    /// The layer's name.
    pub fn name(&self) -> (r: &LayerName)
        ensures
            r.view() == self@.name,
    {
        &self.name
    }

    /// The layer's z-order, counted from 1 in the declared order.
    pub fn z_order(&self) -> (r: usize)
        ensures
            r == self@.z_order,
    {
        self.z_order
    }

    /// The document positions of the layer's frames of tag `t`, in order.
    pub fn frames(&self, t: usize) -> (r: &[usize])
        ensures
            r@ == (if t < self@.frames.len() { self@.frames[t as int] } else { Seq::empty() }),
    {
        if t < self.frames.len() {
            self.frames[t].as_slice()
        } else {
            &[]
        }
    }

    /// The tags that the layer takes part in, ascending.
    pub fn supported_animations(&self) -> (r: Vec<usize>)
        ensures
            forall|t: int| 0 <= t < r@.len() ==> self@.frames[#[trigger] r@[t] as int].len() > 0,
            forall|t: usize|
                t < self@.frames.len() && self@.frames[t as int].len() > 0 ==> r@.contains(t),
            forall|a: int, b: int| 0 <= a < b < r@.len() ==> r@[a] < r@[b],
            forall|t: int| 0 <= t < r@.len() ==> #[trigger] r@[t] < self@.frames.len(),
    {
        let n = self.frames.len();
        let mut r: Vec<usize> = Vec::new();
        let mut t: usize = 0;
        while t < n
            invariant
                n == self@.frames.len(),
                t <= n,
                forall|k: int| 0 <= k < r@.len() ==> self@.frames[#[trigger] r@[k] as int].len() > 0,
                forall|u: usize| u < t && self@.frames[u as int].len() > 0 ==> r@.contains(u),
                forall|a: int, b: int| 0 <= a < b < r@.len() ==> r@[a] < r@[b],
                forall|k: int| 0 <= k < r@.len() ==> #[trigger] r@[k] < t,
            decreases n - t,
        {
            if self.frames[t].len() > 0 {
                let ghost before = r@;
                r.push(t);
                proof {
                    assert forall|u: usize| u < t + 1 && self@.frames[u as int].len() > 0 implies r@.contains(u) by {
                        if u < t {
                            assert(before.contains(u));
                            let k = choose|k: int| 0 <= k < before.len() && before[k] == u;
                            assert(r@[k] == u);
                        } else {
                            assert(r@[before.len() as int] == u);
                        }
                    }
                }
            }
            t = t + 1;
        }
        r
    }

    /// Whether the layer takes part in the animation of tag `t`.
    pub fn supports(&self, t: usize) -> (r: bool)
        ensures
            r == (t < self@.frames.len() && self@.frames[t as int].len() > 0),
    {
        t < self.frames.len() && self.frames[t].len() > 0
    }
}

/// `layers` is the index of the document whose frame names are `fnames` and
/// whose declared layers are `declared`: one entry per layer that a frame
/// uses, with its z-order and, for each tag, its frames in document order.
pub open spec fn index_built(
    names: Seq<Seq<char>>,
    reg: Seq<Option<FrameRange>>,
    fnames: Seq<Seq<char>>,
    declared: Seq<Seq<char>>,
    layers: Seq<LayerView>,
) -> bool {
    &&& forall|i: int, j: int|
        0 <= i < layers.len() && 0 <= j < layers.len() && i != j ==> (#[trigger] layers[i]).name
            != (#[trigger] layers[j]).name
    &&& forall|i: int|
        0 <= i < layers.len() ==> {
            &&& layer_used(names, reg, fnames, (#[trigger] layers[i]).name)
            &&& z_order_of(declared, layers[i].name) == Some(layers[i].z_order)
            &&& layers[i].frames.len() == names.len()
            &&& forall|t: int|
                0 <= t < names.len() ==> #[trigger] layers[i].frames[t] == frames_for(
                    names,
                    reg,
                    fnames,
                    layers[i].name,
                    t,
                )
        }
    &&& forall|l: Seq<char>|
        #[trigger] layer_used(names, reg, fnames, l) ==> exists|i: int|
            0 <= i < layers.len() && (#[trigger] layers[i]).name == l
}

/// The built index: one entry per layer.
pub struct LayerAnimationIndex {
    layers: Vec<LayerFrames>,
}

impl View for LayerAnimationIndex {
    type V = Seq<LayerView>;

    closed spec fn view(&self) -> Seq<LayerView> {
        Seq::new(self.layers@.len(), |i: int| self.layers@[i]@)
    }
}

impl LayerAnimationIndex {
    /// The number of layers.
    pub fn len(&self) -> (r: usize)
        ensures
            r == self@.len(),
    {
        self.layers.len()
    }

    /// The layer at position `i`.
    pub fn layer(&self, i: usize) -> (r: &LayerFrames)
        requires
            i < self@.len(),
        ensures
            r@ == self@[i as int],
    {
        &self.layers[i]
    }
}


/// A failure on a prefix of the frame names is the failure of them all.
proof fn lemma_failure_persists(
    names: Seq<Seq<char>>,
    reg: Seq<Option<FrameRange>>,
    fnames: Seq<Seq<char>>,
    i: int,
)
    requires
        0 <= i <= fnames.len(),
        decode_failure(names, reg, fnames.subrange(0, i)) is Some,
    ensures
        decode_failure(names, reg, fnames) == decode_failure(names, reg, fnames.subrange(0, i)),
    decreases fnames.len() - i,
{
    if i < fnames.len() {
        assert(fnames.subrange(0, i + 1).drop_last() =~= fnames.subrange(0, i));
        lemma_failure_persists(names, reg, fnames, i + 1);
    } else {
        assert(fnames.subrange(0, i) =~= fnames);
    }
}

/// Some frame is coded with layer `j`.
spec fn code_used(codes: Seq<(usize, usize)>, j: int) -> bool {
    exists|p: int| 0 <= p < codes.len() && codes[p].1 == j
}

/// The frames of the document, decoded: per frame its tag and the position of
/// its layer in `layers`, each layer named once, in order of first use.
struct Decoded {
    layers: Vec<LayerName>,
    codes: Vec<(usize, usize)>,
}

/// Decodes every frame name of `sheet`, or fails with the first failure.
fn decode_frames(sheet: &SpriteInfo, vocab: &TagVocabulary, reg: &AnimationLayerInfo) -> (r: Result<
    Decoded,
    SheetError,
>)
    requires
        vocab.wf(),
    ensures
        match r {
            Err(e) => decode_failure(vocab@, reg@, frame_names(sheet.frames@)) == Some(e),
            Ok(d) => {
                &&& decode_failure(vocab@, reg@, frame_names(sheet.frames@)) is None
                &&& d.codes@.len() == sheet.frames@.len()
                &&& forall|p: int|
                    0 <= p < d.codes@.len() ==> (#[trigger] d.codes@[p]).1 < d.layers@.len()
                        && frame_decode(vocab@, reg@, sheet.frames@[p].filename@) == Ok::<
                        (int, Seq<char>),
                        SheetError,
                    >((d.codes@[p].0 as int, d.layers@[d.codes@[p].1 as int].view()))
                &&& forall|i: int, j: int|
                    0 <= i < d.layers@.len() && 0 <= j < d.layers@.len() && i != j ==> (#[trigger] d.layers@[i]).view()
                        != (#[trigger] d.layers@[j]).view()
                &&& forall|j: int| 0 <= j < d.layers@.len() ==> #[trigger] code_used(d.codes@, j)
            },
        },
{
    let ghost fnames = frame_names(sheet.frames@);
    let n = sheet.frames.len();
    let mut layers: Vec<LayerName> = Vec::new();
    let mut codes: Vec<(usize, usize)> = Vec::new();
    let mut i: usize = 0;
    assert(fnames.subrange(0, 0) =~= Seq::<Seq<char>>::empty());
    while i < n
        invariant
            n == sheet.frames@.len(),
            fnames == frame_names(sheet.frames@),
            vocab.wf(),
            i <= n,
            decode_failure(vocab@, reg@, fnames.subrange(0, i as int)) is None,
            codes@.len() == i,
            forall|p: int|
                0 <= p < codes@.len() ==> (#[trigger] codes@[p]).1 < layers@.len()
                    && frame_decode(vocab@, reg@, sheet.frames@[p].filename@) == Ok::<
                    (int, Seq<char>),
                    SheetError,
                >((codes@[p].0 as int, layers@[codes@[p].1 as int].view())),
            forall|a: int, b: int|
                0 <= a < layers@.len() && 0 <= b < layers@.len() && a != b ==> (#[trigger] layers@[a]).view()
                    != (#[trigger] layers@[b]).view(),
            forall|j: int| 0 <= j < layers@.len() ==> #[trigger] code_used(codes@, j),
        decreases n - i,
    {
        proof {
            assert(fnames.subrange(0, i + 1).drop_last() =~= fnames.subrange(0, i as int));
            assert(fnames.subrange(0, i + 1).last() == sheet.frames@[i as int].filename@);
        }
        let decoded = decode_filename(vocab, sheet.frames[i].filename.as_str());
        let d = match decoded {
            Err(e) => {
                proof {
                    lemma_failure_persists(vocab@, reg@, fnames, i + 1);
                }
                return Err(e);
            },
            Ok(d) => d,
        };
        if reg.get(d.tag).is_none() {
            proof {
                lemma_failure_persists(vocab@, reg@, fnames, i + 1);
            }
            return Err(SheetError::UnknownAnimationTag);
        }
        let m = layers.len();
        let mut j: usize = 0;
        let mut found = false;
        while j < m && !found
            invariant
                m == layers@.len(),
                j <= m,
                found ==> j < m && layers@[j as int].view() == d.layer.view(),
                forall|k: int| 0 <= k < j ==> layers@[k].view() != d.layer.view(),
            decreases m - j + (if found { 0int } else { 1int }),
        {
            if layers[j].same_as(&d.layer) {
                found = true;
            } else {
                j = j + 1;
            }
        }
        if j == m {
            layers.push(d.layer);
        }
        let ghost old_codes = codes@;
        codes.push((d.tag, j));
        proof {
            assert forall|q: int| 0 <= q < layers@.len() implies #[trigger] code_used(codes@, q) by {
                if q < m {
                    assert(code_used(old_codes, q));
                    let p = choose|p: int| 0 <= p < old_codes.len() && old_codes[p].1 == q;
                    assert(codes@[p] == old_codes[p]);
                } else {
                    assert(codes@[i as int].1 == q);
                }
            }
        }
        i = i + 1;
    }
    assert(fnames.subrange(0, n as int) =~= fnames);
    Ok(Decoded { layers, codes })
}


/// What `decode_frames` establishes of its result.
spec fn decoded_ok(d: Decoded, names: Seq<Seq<char>>, reg: Seq<Option<FrameRange>>, fnames: Seq<Seq<char>>) -> bool {
    &&& d.codes@.len() == fnames.len()
    &&& forall|p: int|
        0 <= p < d.codes@.len() ==> (#[trigger] d.codes@[p]).1 < d.layers@.len()
            && frame_decode(names, reg, fnames[p]) == Ok::<(int, Seq<char>), SheetError>(
            (d.codes@[p].0 as int, d.layers@[d.codes@[p].1 as int].view()),
        )
    &&& forall|i: int, j: int|
        0 <= i < d.layers@.len() && 0 <= j < d.layers@.len() && i != j ==> (#[trigger] d.layers@[i]).view()
            != (#[trigger] d.layers@[j]).view()
    &&& forall|j: int| 0 <= j < d.layers@.len() ==> #[trigger] code_used(d.codes@, j)
}

/// The z-order of `name`: its first position in `layers`, counted from 1.
fn declared_position(layers: &Vec<LayerInfo>, name: &LayerName) -> (r: Option<usize>)
    ensures
        match r {
            Some(z) => z_order_of(declared_layers(layers@), name.view()) == Some(z as int),
            None => z_order_of(declared_layers(layers@), name.view()) is None,
        },
{
    let ghost declared = declared_layers(layers@);
    let n = layers.len();
    let mut p: usize = 0;
    while p < n
        invariant
            n == layers@.len(),
            declared == declared_layers(layers@),
            p <= n,
            forall|q: int| 0 <= q < p ==> declared[q] != name.view(),
        decreases n - p,
    {
        if layers[p].name.same_as(name) {
            proof {
                assert(first_declared(declared, name.view(), p as int));
                let c = choose|c: int| first_declared(declared, name.view(), c);
                if c < p {
                    assert(declared[c] == name.view());
                } else if p < c {
                    assert(declared[p as int] != name.view());
                }
            }
            return Some(p + 1);
        }
        p = p + 1;
    }
    None
}

/// The positions of the frames coded with tag `t` and layer `j`, ascending.
fn frames_with(d: &Decoded, t: usize, j: usize, Ghost(names): Ghost<Seq<Seq<char>>>, Ghost(reg): Ghost<Seq<Option<FrameRange>>>, Ghost(fnames): Ghost<Seq<Seq<char>>>) -> (r: Vec<usize>)
    requires
        decoded_ok(*d, names, reg, fnames),
        j < d.layers@.len(),
    ensures
        r@ == frames_for(names, reg, fnames, d.layers@[j as int].view(), t as int),
{
    let ghost l = d.layers@[j as int].view();
    let n = d.codes.len();
    let mut out: Vec<usize> = Vec::new();
    let mut k: usize = 0;
    assert(fnames.subrange(0, 0) =~= Seq::<Seq<char>>::empty());
    while k < n
        invariant
            n == d.codes@.len(),
            decoded_ok(*d, names, reg, fnames),
            j < d.layers@.len(),
            l == d.layers@[j as int].view(),
            k <= n,
            out@ == frames_for(names, reg, fnames.subrange(0, k as int), l, t as int),
        decreases n - k,
    {
        proof {
            assert(fnames.subrange(0, k + 1).drop_last() =~= fnames.subrange(0, k as int));
            assert(fnames.subrange(0, k + 1).last() == fnames[k as int]);
            let c = d.codes@[k as int];
            assert(c.1 < d.layers@.len());
            if c.1 != j {
                assert(d.layers@[c.1 as int].view() != d.layers@[j as int].view());
            }
        }
        let c = d.codes[k];
        if c.0 == t && c.1 == j {
            out.push(k);
        }
        k = k + 1;
    }
    assert(fnames.subrange(0, n as int) =~= fnames);
    out
}

impl SpriteInfo {
    /// Builds the per-layer frame index. Fails with the failure of the first
    /// frame name that does not decode, or whose tag has no frame window in
    /// `reg`; where all decode, fails with `UndeclaredLayer` if a frame's
    /// layer is not among the document's declared layers.
    pub fn extract_layer_info(&self, vocab: &TagVocabulary, reg: &AnimationLayerInfo) -> (r: Result<
        LayerAnimationIndex,
        SheetError,
    >)
        requires
            vocab.wf(),
        ensures
            match r {
                Ok(idx) => {
                    &&& decode_failure(vocab@, reg@, frame_names(self.frames@)) is None
                    &&& forall|l: Seq<char>|
                        layer_used(vocab@, reg@, frame_names(self.frames@), l) ==> z_order_of(
                            declared_layers(self.meta.layers@),
                            l,
                        ) is Some
                    &&& index_built(
                        vocab@,
                        reg@,
                        frame_names(self.frames@),
                        declared_layers(self.meta.layers@),
                        idx@,
                    )
                },
                Err(e) => match decode_failure(vocab@, reg@, frame_names(self.frames@)) {
                    Some(f) => e == f,
                    None => e == SheetError::UndeclaredLayer && exists|l: Seq<char>|
                        layer_used(vocab@, reg@, frame_names(self.frames@), l) && z_order_of(
                            declared_layers(self.meta.layers@),
                            l,
                        ) is None,
                },
            },
            decode_failure(vocab@, reg@, frame_names(self.frames@)) is None && (exists|l: Seq<char>|
                layer_used(vocab@, reg@, frame_names(self.frames@), l) && z_order_of(
                    declared_layers(self.meta.layers@),
                    l,
                ) is None) ==> r matches Err(SheetError::UndeclaredLayer),
    {
        let ghost fnames = frame_names(self.frames@);
        let ghost declared = declared_layers(self.meta.layers@);
        let d = match decode_frames(self, vocab, reg) {
            Err(e) => {
                return Err(e);
            },
            Ok(d) => d,
        };
        assert(decoded_ok(d, vocab@, reg@, fnames));
        let nt = vocab.len();
        let nl = d.layers.len();
        let mut out: Vec<LayerFrames> = Vec::new();
        let mut j: usize = 0;
        while j < nl
            invariant
                nl == d.layers@.len(),
                nt == vocab@.len(),
                decoded_ok(d, vocab@, reg@, fnames),
                decode_failure(vocab@, reg@, fnames) is None,
                fnames == frame_names(self.frames@),
                declared == declared_layers(self.meta.layers@),
                j <= nl,
                out@.len() == j,
                forall|i: int|
                    0 <= i < j ==> {
                        &&& (#[trigger] out@[i])@.name == d.layers@[i].view()
                        &&& z_order_of(declared, d.layers@[i].view()) == Some(out@[i]@.z_order)
                        &&& out@[i]@.frames.len() == nt
                        &&& forall|t: int|
                            0 <= t < nt ==> #[trigger] out@[i]@.frames[t] == frames_for(
                                vocab@,
                                reg@,
                                fnames,
                                d.layers@[i].view(),
                                t,
                            )
                    },
            decreases nl - j,
        {
            let z = match declared_position(&self.meta.layers, &d.layers[j]) {
                None => {
                    proof {
                        assert(code_used(d.codes@, j as int));
                        let p = choose|p: int| 0 <= p < d.codes@.len() && d.codes@[p].1 == j;
                        assert(frame_decode(vocab@, reg@, fnames[p]) is Ok);
                        assert(layer_used(vocab@, reg@, fnames, d.layers@[j as int].view()));
                    }
                    return Err(SheetError::UndeclaredLayer);
                },
                Some(z) => z,
            };
            let mut per_tag: Vec<Vec<usize>> = Vec::new();
            let mut t: usize = 0;
            while t < nt
                invariant
                    nl == d.layers@.len(),
                    decoded_ok(d, vocab@, reg@, fnames),
                    j < nl,
                    t <= nt,
                    per_tag@.len() == t,
                    forall|u: int|
                        0 <= u < t ==> (#[trigger] per_tag@[u])@ == frames_for(
                            vocab@,
                            reg@,
                            fnames,
                            d.layers@[j as int].view(),
                            u,
                        ),
                decreases nt - t,
            {
                let f = frames_with(&d, t, j, Ghost(vocab@), Ghost(reg@), Ghost(fnames));
                per_tag.push(f);
                t = t + 1;
            }
            let entry = LayerFrames { name: d.layers[j].duplicate(), z_order: z, frames: per_tag };
            proof {
                assert forall|u: int| 0 <= u < nt implies #[trigger] entry@.frames[u] == frames_for(
                    vocab@,
                    reg@,
                    fnames,
                    d.layers@[j as int].view(),
                    u,
                ) by {
                    assert(entry@.frames[u] == per_tag@[u]@);
                }
            }
            out.push(entry);
            j = j + 1;
        }
        let idx = LayerAnimationIndex { layers: out };
        proof {
            let layers = idx@;
            assert forall|i: int| 0 <= i < layers.len() implies layer_used(vocab@, reg@, fnames, (#[trigger] layers[i]).name) by {
                assert(layers[i] == out@[i]@);
                assert(code_used(d.codes@, i));
                let p = choose|p: int| 0 <= p < d.codes@.len() && d.codes@[p].1 == i;
                assert(frame_decode(vocab@, reg@, fnames[p]) is Ok);
            }
            assert forall|l: Seq<char>| #[trigger] layer_used(vocab@, reg@, fnames, l) implies exists|i: int|
                0 <= i < layers.len() && (#[trigger] layers[i]).name == l by {
                let p = choose|p: int|
                    0 <= p < fnames.len() && (#[trigger] frame_decode(vocab@, reg@, fnames[p])) is Ok
                        && frame_decode(vocab@, reg@, fnames[p])->Ok_0.1 == l;
                let i = d.codes@[p].1 as int;
                assert(layers[i] == out@[i]@);
            }
            assert forall|i: int, k: int|
                0 <= i < layers.len() && 0 <= k < layers.len() && i != k implies (#[trigger] layers[i]).name
                    != (#[trigger] layers[k]).name by {
                assert(layers[i] == out@[i]@);
                assert(layers[k] == out@[k]@);
                assert(d.layers@[i].view() != d.layers@[k].view());
            }
            assert forall|i: int| 0 <= i < layers.len() implies z_order_of(declared, (#[trigger] layers[i]).name) == Some(layers[i].z_order) by {
                assert(layers[i] == out@[i]@);
            }
            assert forall|i: int, t: int| 0 <= i < layers.len() && 0 <= t < nt implies #[trigger] layers[i].frames[t] == frames_for(
                vocab@, reg@, fnames, layers[i].name, t) by {
                assert(layers[i] == out@[i]@);
                assert(out@[i]@.frames[t] == frames_for(vocab@, reg@, fnames, d.layers@[i].view(), t));
            }
            assert forall|l: Seq<char>| layer_used(vocab@, reg@, fnames, l) implies z_order_of(declared, l) is Some by {
                let i = choose|i: int| 0 <= i < layers.len() && (#[trigger] layers[i]).name == l;
                assert(layers[i] == out@[i]@);
            }
        }
        Ok(idx)
    }
}


/// The index as a mapping from layer name to what it holds of that layer.
pub open spec fn index_content(layers: Seq<LayerView>) -> Map<Seq<char>, LayerView> {
    Map::new(
        |l: Seq<char>| exists|i: int| 0 <= i < layers.len() && layers[i].name == l,
        |l: Seq<char>| layers[choose|i: int| 0 <= i < layers.len() && layers[i].name == l],
    )
}

/// Indexing is deterministic: any two indexes built from the same document
/// with the same vocabulary and registry hold the same layers, each with the
/// same z-order and the same frame list for every tag, in whatever order
/// their layers stand.
pub proof fn lemma_indexing_deterministic(
    sheet: &SpriteInfo,
    vocab: &TagVocabulary,
    reg: &AnimationLayerInfo,
    a: &LayerAnimationIndex,
    b: &LayerAnimationIndex,
)
    requires
        index_built(vocab@, reg@, frame_names(sheet.frames@), declared_layers(sheet.meta.layers@), a@),
        index_built(vocab@, reg@, frame_names(sheet.frames@), declared_layers(sheet.meta.layers@), b@),
    ensures
        index_content(a@) == index_content(b@),
{
    let fnames = frame_names(sheet.frames@);
    let declared = declared_layers(sheet.meta.layers@);
    let ca = index_content(a@);
    let cb = index_content(b@);
    assert forall|l: Seq<char>| ca.dom().contains(l) <==> cb.dom().contains(l) by {
        if ca.dom().contains(l) {
            let i = choose|i: int| 0 <= i < a@.len() && a@[i].name == l;
            assert(layer_used(vocab@, reg@, fnames, a@[i].name));
        }
        if cb.dom().contains(l) {
            let i = choose|i: int| 0 <= i < b@.len() && b@[i].name == l;
            assert(layer_used(vocab@, reg@, fnames, b@[i].name));
        }
    }
    assert forall|l: Seq<char>| ca.dom().contains(l) implies ca[l] == cb[l] by {
        let i = choose|i: int| 0 <= i < a@.len() && a@[i].name == l;
        let k = choose|k: int| 0 <= k < b@.len() && b@[k].name == l;
        let x = a@[i];
        let y = b@[k];
        assert(x.frames =~= y.frames) by {
            assert forall|t: int| 0 <= t < x.frames.len() implies x.frames[t] == y.frames[t] by {
                assert(x.frames[t] == frames_for(vocab@, reg@, fnames, l, t));
                assert(y.frames[t] == frames_for(vocab@, reg@, fnames, l, t));
            }
        }
    }
    assert(ca =~= cb);
}

} // verus!
