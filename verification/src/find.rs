//! Finding the framebuffer that is on the screen, one question to the device at a time.

use vstd::prelude::*;

verus! {

/// What the search wants to know next, or what it found.
#[derive(Clone, Copy, Debug, PartialEq, Eq, Structural)]
pub enum FindAsk {
    /// Whether a CRTC has a mode, and its framebuffer.
    Crtc { crtc: usize },
    /// How many planes there are.
    Planes,
    /// Whether a plane has a CRTC, and its framebuffer.
    Plane { plane: usize },
    /// The framebuffer, if there is one.
    Done { framebuffer: Option<u32> },
}

/// A search through the CRTCs of a device, and then through its planes, in order, that ends at the
/// first one that shows a framebuffer.
#[derive(Clone, Copy, Debug, PartialEq, Eq, Structural)]
pub struct FramebufferSearch {
    crtcs: usize,
    planes: usize,
    ask: FindAsk,
}

/// A CRTC: whether it has a mode, and its framebuffer.
pub struct CrtcModel {
    pub mode: bool,
    pub framebuffer: Option<u32>,
}

/// A plane: whether it has a CRTC, and its framebuffer.
pub struct PlaneModel {
    pub crtc: bool,
    pub framebuffer: Option<u32>,
}

/// Whether a CRTC shows a framebuffer.
pub open spec fn crtc_shows(c: CrtcModel) -> bool {
    c.mode && c.framebuffer is Some
}

/// Whether `i` is the first CRTC from `from` on that shows a framebuffer.
pub open spec fn is_first_crtc(crtcs: Seq<CrtcModel>, from: int, i: int) -> bool {
    &&& from <= i < crtcs.len()
    &&& crtc_shows(crtcs[i])
    &&& forall|k: int| from <= k < i ==> !crtc_shows(#[trigger] crtcs[k])
}

/// Whether `j` is the first plane from `from` on that has a CRTC.
pub open spec fn is_first_plane(planes: Seq<PlaneModel>, from: int, j: int) -> bool {
    &&& from <= j < planes.len()
    &&& planes[j].crtc
    &&& forall|k: int| from <= k < j ==> !(#[trigger] planes[k]).crtc
}

/// Whether `found` is the framebuffer of the first plane from `from` on that has a CRTC.
pub open spec fn found_on_planes(planes: Seq<PlaneModel>, from: int, found: Option<u32>) -> bool {
    ||| exists|j: int| #[trigger] is_first_plane(planes, from, j) && found == planes[j].framebuffer
    ||| found is None && forall|k: int| from <= k < planes.len() ==> !(#[trigger] planes[k]).crtc
}

/// Whether `found` is the framebuffer of the first CRTC from `from` on that shows one or, where
/// none does, of the first plane that has a CRTC.
pub open spec fn found_on_device(
    crtcs: Seq<CrtcModel>,
    planes: Seq<PlaneModel>,
    from: int,
    found: Option<u32>,
) -> bool {
    ||| exists|i: int| #[trigger] is_first_crtc(crtcs, from, i) && found == crtcs[i].framebuffer
    ||| {
        &&& forall|k: int| from <= k < crtcs.len() ==> !crtc_shows(#[trigger] crtcs[k])
        &&& found_on_planes(planes, 0, found)
    }
}

/// What to ask about the CRTC at `crtc`, or about the planes.
pub open spec fn ask_crtc(crtcs: usize, crtc: int) -> FindAsk {
    if crtc < crtcs {
        FindAsk::Crtc { crtc: crtc as usize }
    } else {
        FindAsk::Planes
    }
}

/// What to ask about the plane at `plane`, or that there is none left.
pub open spec fn ask_plane(planes: usize, plane: int) -> FindAsk {
    if plane < planes {
        FindAsk::Plane { plane: plane as usize }
    } else {
        FindAsk::Done { framebuffer: None }
    }
}

/// What to ask once the CRTC is known.
pub open spec fn after_crtc(
    crtcs: usize,
    ask: FindAsk,
    mode: bool,
    framebuffer: Option<u32>,
) -> FindAsk {
    match ask {
        FindAsk::Crtc { crtc } => if mode && framebuffer is Some {
            FindAsk::Done { framebuffer }
        } else {
            ask_crtc(crtcs, crtc + 1)
        },
        _ => ask,
    }
}

/// What to ask once the plane is known.
pub open spec fn after_plane(
    planes: usize,
    ask: FindAsk,
    crtc: bool,
    framebuffer: Option<u32>,
) -> FindAsk {
    match ask {
        FindAsk::Plane { plane } => if crtc {
            FindAsk::Done { framebuffer }
        } else {
            ask_plane(planes, plane + 1)
        },
        _ => ask,
    }
}

impl FramebufferSearch {
    /// How many CRTCs are searched.
    pub closed spec fn crtcs(self) -> usize {
        self.crtcs
    }

    /// How many planes are searched.
    pub closed spec fn planes(self) -> usize {
        self.planes
    }

    /// What the search wants to know next.
    pub closed spec fn spec_ask(self) -> FindAsk {
        self.ask
    }

    /// The search is within its CRTCs and planes.
    pub open spec fn wf(self) -> bool {
        match self.spec_ask() {
            FindAsk::Crtc { crtc } => crtc < self.crtcs(),
            FindAsk::Plane { plane } => plane < self.planes(),
            _ => true,
        }
    }

    /// A search of a device with the given number of CRTCs.
    pub fn new(crtcs: usize) -> (r: FramebufferSearch)
        ensures
            r.wf(),
            r.crtcs() == crtcs,
            r.planes() == 0,
            r.spec_ask() == ask_crtc(crtcs, 0),
    {
        let ask: FindAsk = if crtcs > 0 {
            FindAsk::Crtc { crtc: 0 }
        } else {
            FindAsk::Planes
        };
        FramebufferSearch { crtcs, planes: 0, ask }
    }

    /// What the search wants to know next.
    pub fn ask(&self) -> (r: FindAsk)
        ensures
            r == self.spec_ask(),
    {
        self.ask
    }

    /// Takes in whether the CRTC has a mode, and its framebuffer.
    pub fn on_crtc(&mut self, mode: bool, framebuffer: Option<u32>)
        requires
            old(self).wf(),
            old(self).spec_ask() is Crtc,
        ensures
            final(self).wf(),
            final(self).crtcs() == old(self).crtcs(),
            final(self).planes() == old(self).planes(),
            final(self).spec_ask() == after_crtc(
                old(self).crtcs(),
                old(self).spec_ask(),
                mode,
                framebuffer,
            ),
    {
        if let FindAsk::Crtc { crtc } = self.ask {
            self.ask = if mode && framebuffer.is_some() {
                FindAsk::Done { framebuffer }
            } else if crtc + 1 < self.crtcs {
                FindAsk::Crtc { crtc: crtc + 1 }
            } else {
                FindAsk::Planes
            };
        }
    }

    /// Takes in how many planes there are.
    pub fn on_planes(&mut self, planes: usize)
        requires
            old(self).wf(),
            old(self).spec_ask() is Planes,
        ensures
            final(self).wf(),
            final(self).crtcs() == old(self).crtcs(),
            final(self).planes() == planes,
            final(self).spec_ask() == ask_plane(planes, 0),
    {
        self.planes = planes;
        self.ask = if planes > 0 {
            FindAsk::Plane { plane: 0 }
        } else {
            FindAsk::Done { framebuffer: None }
        };
    }

    /// Takes in whether the plane has a CRTC, and its framebuffer. A plane with a CRTC has a
    /// framebuffer.
    pub fn on_plane(&mut self, crtc: bool, framebuffer: Option<u32>)
        requires
            old(self).wf(),
            old(self).spec_ask() is Plane,
            crtc ==> framebuffer is Some,
        ensures
            final(self).wf(),
            final(self).crtcs() == old(self).crtcs(),
            final(self).planes() == old(self).planes(),
            final(self).spec_ask() == after_plane(
                old(self).planes(),
                old(self).spec_ask(),
                crtc,
                framebuffer,
            ),
    {
        if let FindAsk::Plane { plane } = self.ask {
            self.ask = if crtc {
                FindAsk::Done { framebuffer }
            } else if plane + 1 < self.planes {
                FindAsk::Plane { plane: plane + 1 }
            } else {
                FindAsk::Done { framebuffer: None }
            };
        }
    }
}

/// Whether a question can come up in a search of a device.
pub open spec fn can_ask(crtcs: Seq<CrtcModel>, planes: Seq<PlaneModel>, ask: FindAsk) -> bool {
    match ask {
        FindAsk::Crtc { crtc } => crtc < crtcs.len(),
        FindAsk::Plane { plane } => plane < planes.len(),
        _ => true,
    }
}

/// The next question, once a device has answered a question.
pub open spec fn answered(crtcs: Seq<CrtcModel>, planes: Seq<PlaneModel>, ask: FindAsk) -> FindAsk {
    match ask {
        FindAsk::Crtc { crtc } => {
            let c = crtcs[crtc as int];
            after_crtc(crtcs.len() as usize, ask, c.mode, c.framebuffer)
        },
        FindAsk::Planes => ask_plane(planes.len() as usize, 0),
        FindAsk::Plane { plane } => {
            let p = planes[plane as int];
            after_plane(planes.len() as usize, ask, p.crtc, p.framebuffer)
        },
        FindAsk::Done { .. } => ask,
    }
}

/// The questions that are left, at most.
pub open spec fn steps_left(crtcs: Seq<CrtcModel>, planes: Seq<PlaneModel>, ask: FindAsk) -> int {
    match ask {
        FindAsk::Crtc { crtc } => crtcs.len() - crtc + planes.len() + 1,
        FindAsk::Planes => planes.len() as int + 1,
        FindAsk::Plane { plane } => planes.len() - plane,
        FindAsk::Done { .. } => 0,
    }
}

/// What a search ends with when a device answers every question, from a given question on.
pub open spec fn search_result(
    crtcs: Seq<CrtcModel>,
    planes: Seq<PlaneModel>,
    ask: FindAsk,
) -> Option<u32>
    decreases steps_left(crtcs, planes, ask),
        when crtcs.len() <= usize::MAX && planes.len() <= usize::MAX && can_ask(crtcs, planes, ask)
{
    match ask {
        FindAsk::Done { framebuffer } => framebuffer,
        _ => search_result(crtcs, planes, answered(crtcs, planes, ask)),
    }
}

/// Whether `found` is what is left to find, from a given question on.
spec fn found_from(
    crtcs: Seq<CrtcModel>,
    planes: Seq<PlaneModel>,
    ask: FindAsk,
    found: Option<u32>,
) -> bool {
    match ask {
        FindAsk::Crtc { crtc } => found_on_device(crtcs, planes, crtc as int, found),
        FindAsk::Planes => found_on_planes(planes, 0, found),
        FindAsk::Plane { plane } => found_on_planes(planes, plane as int, found),
        FindAsk::Done { framebuffer } => found == framebuffer,
    }
}

proof fn lemma_search_from(crtcs: Seq<CrtcModel>, planes: Seq<PlaneModel>, ask: FindAsk)
    requires
        crtcs.len() <= usize::MAX,
        planes.len() <= usize::MAX,
        can_ask(crtcs, planes, ask),
    ensures
        found_from(crtcs, planes, ask, search_result(crtcs, planes, ask)),
    decreases steps_left(crtcs, planes, ask),
{
    if !(ask is Done) {
        let next = answered(crtcs, planes, ask);
        lemma_search_from(crtcs, planes, next);
        let found = search_result(crtcs, planes, next);
        match ask {
            FindAsk::Crtc { crtc } => {
                let c = crtc as int;
                if crtc_shows(crtcs[c]) {
                    assert(is_first_crtc(crtcs, c, c));
                } else if exists|i: int| is_first_crtc(crtcs, c + 1, i) && found
                    == crtcs[i].framebuffer {
                    let i = choose|i: int|
                        is_first_crtc(crtcs, c + 1, i) && found == crtcs[i].framebuffer;
                    assert(is_first_crtc(crtcs, c, i));
                }
            },
            FindAsk::Plane { plane } => {
                let p = plane as int;
                if planes[p].crtc {
                    assert(is_first_plane(planes, p, p));
                } else if exists|j: int| is_first_plane(planes, p + 1, j) && found
                    == planes[j].framebuffer {
                    let j = choose|j: int|
                        is_first_plane(planes, p + 1, j) && found == planes[j].framebuffer;
                    assert(is_first_plane(planes, p, j));
                }
            },
            _ => {},
        }
    }
}

/// A search finds the framebuffer of the first CRTC with a mode and a framebuffer or, where there
/// is none, that of the first plane with a CRTC, and nothing where there is no such plane either.
pub proof fn lemma_search_finds_framebuffer(crtcs: Seq<CrtcModel>, planes: Seq<PlaneModel>)
    requires
        crtcs.len() <= usize::MAX,
        planes.len() <= usize::MAX,
    ensures
        found_on_device(
            crtcs,
            planes,
            0,
            search_result(crtcs, planes, ask_crtc(crtcs.len() as usize, 0)),
        ),
{
    lemma_search_from(crtcs, planes, ask_crtc(crtcs.len() as usize, 0));
}

/// Whether a question is answered as the device answers it.
pub open spec fn answers_as(
    crtcs: Seq<CrtcModel>,
    planes: Seq<PlaneModel>,
    s: &mut FramebufferSearch,
) -> bool {
    match (*s).spec_ask() {
        FindAsk::Crtc { crtc } => call_ensures(
            FramebufferSearch::on_crtc,
            (s, crtcs[crtc as int].mode, crtcs[crtc as int].framebuffer),
            (),
        ),
        FindAsk::Planes => call_ensures(
            FramebufferSearch::on_planes,
            (s, planes.len() as usize),
            (),
        ),
        FindAsk::Plane { plane } => call_ensures(
            FramebufferSearch::on_plane,
            (s, planes[plane as int].crtc, planes[plane as int].framebuffer),
            (),
        ),
        FindAsk::Done { .. } => false,
    }
}

/// What every search keeps: it is within the device, and what is left to find is what all of the
/// device shows.
spec fn search_holds(
    crtcs: Seq<CrtcModel>,
    planes: Seq<PlaneModel>,
    s: FramebufferSearch,
) -> bool {
    &&& s.crtcs() == crtcs.len()
    &&& s.spec_ask() is Plane ==> s.planes() == planes.len()
    &&& can_ask(crtcs, planes, s.spec_ask())
    &&& search_result(crtcs, planes, s.spec_ask()) == search_result(
        crtcs,
        planes,
        ask_crtc(crtcs.len() as usize, 0),
    )
}

proof fn lemma_search_keeps(
    crtcs: Seq<CrtcModel>,
    planes: Seq<PlaneModel>,
    start: FramebufferSearch,
    calls: Seq<&mut FramebufferSearch>,
)
    requires
        crtcs.len() <= usize::MAX,
        planes.len() <= usize::MAX,
        call_ensures(FramebufferSearch::new, (crtcs.len() as usize,), start),
        forall|i: int| 0 <= i < calls.len() ==> #[trigger] answers_as(crtcs, planes, calls[i]),
        calls.len() > 0 ==> *calls[0] == start,
        forall|i: int|
            0 < i < calls.len() ==> *(#[trigger] calls[i]) == *final(calls[i - 1]),
    ensures
        calls.len() == 0 ==> search_holds(crtcs, planes, start),
        calls.len() > 0 ==> search_holds(crtcs, planes, *final(calls.last())) && 0 <= steps_left(
            crtcs,
            planes,
            final(calls.last()).spec_ask(),
        ) <= crtcs.len() + planes.len() + 1 - calls.len(),
    decreases calls.len(),
{
    if calls.len() > 0 {
        lemma_search_keeps(crtcs, planes, start, calls.drop_last());
        let s = calls.last();
        assert(answers_as(crtcs, planes, calls[calls.len() - 1]));
        if calls.len() > 1 {
            assert(*calls[calls.len() - 1] == *final(calls[calls.len() - 2]));
        }
        assert(search_holds(crtcs, planes, *s));
        assert(final(s).spec_ask() == answered(crtcs, planes, (*s).spec_ask()));
    }
}

/// A search comes to an end: it asks at most one question about each CRTC and about each plane, and
/// one more.
pub proof fn lemma_search_ends(
    crtcs: Seq<CrtcModel>,
    planes: Seq<PlaneModel>,
    start: FramebufferSearch,
    calls: Seq<&mut FramebufferSearch>,
)
    requires
        crtcs.len() <= usize::MAX,
        planes.len() <= usize::MAX,
        call_ensures(FramebufferSearch::new, (crtcs.len() as usize,), start),
        forall|i: int| 0 <= i < calls.len() ==> #[trigger] answers_as(crtcs, planes, calls[i]),
        calls.len() > 0 ==> *calls[0] == start,
        forall|i: int|
            0 < i < calls.len() ==> *(#[trigger] calls[i]) == *final(calls[i - 1]),
    ensures
        calls.len() <= crtcs.len() + planes.len() + 1,
{
    lemma_search_keeps(crtcs, planes, start, calls);
}

/// However a search of a device went, when it is done it has found the framebuffer of the first CRTC
/// that has both a mode and a framebuffer. Where there is none, it is that of the first plane that
/// has a CRTC, and where there is no such plane either, there is none.
pub proof fn lemma_search_reports_framebuffer(
    crtcs: Seq<CrtcModel>,
    planes: Seq<PlaneModel>,
    start: FramebufferSearch,
    calls: Seq<&mut FramebufferSearch>,
    found: Option<u32>,
)
    requires
        crtcs.len() <= usize::MAX,
        planes.len() <= usize::MAX,
        call_ensures(FramebufferSearch::new, (crtcs.len() as usize,), start),
        forall|i: int| 0 <= i < calls.len() ==> #[trigger] answers_as(crtcs, planes, calls[i]),
        calls.len() > 0 ==> *calls[0] == start,
        forall|i: int|
            0 < i < calls.len() ==> *(#[trigger] calls[i]) == *final(calls[i - 1]),
        calls.len() == 0 ==> call_ensures(
            FramebufferSearch::ask,
            (&start,),
            FindAsk::Done { framebuffer: found },
        ),
        calls.len() > 0 ==> call_ensures(
            FramebufferSearch::ask,
            (&*final(calls.last()),),
            FindAsk::Done { framebuffer: found },
        ),
    ensures
        forall|i: int|
            0 <= i < crtcs.len() && (#[trigger] crtcs[i]).mode && crtcs[i].framebuffer is Some
                && (forall|k: int|
                0 <= k < i ==> !((#[trigger] crtcs[k]).mode && crtcs[k].framebuffer is Some))
                ==> found == crtcs[i].framebuffer,
        (forall|k: int|
            0 <= k < crtcs.len() ==> !((#[trigger] crtcs[k]).mode && crtcs[k].framebuffer is Some))
            ==> {
            &&& forall|j: int|
                0 <= j < planes.len() && (#[trigger] planes[j]).crtc && (forall|k: int|
                    0 <= k < j ==> !(#[trigger] planes[k]).crtc) ==> found == planes[j].framebuffer
            &&& (forall|k: int| 0 <= k < planes.len() ==> !(#[trigger] planes[k]).crtc)
                ==> found is None
        },
{
    lemma_search_keeps(crtcs, planes, start, calls);
    lemma_search_finds_framebuffer(crtcs, planes);
}

} // verus!
