//! What is known of the links between nodes.
use crate::double::Double;
use crate::ids::Uuid;
use vstd::prelude::*;

verus! {

/// An estimate of a link in one direction.
#[derive(Clone, Copy, Debug, PartialEq, Eq, Structural)]
pub struct LinkEstimate {
    pub source: Uuid,
    pub destination: Uuid,
    pub latency_ms: Double,
    pub bytes_per_second: Option<Double>,
    pub sampled_at_ms: u64,
    pub active_transfers: u32,
}

/// The links that have been measured.
#[derive(Clone, Debug)]
pub struct Topology {
    pub links: Vec<LinkEstimate>,
}

impl View for Topology {
    type V = Seq<LinkEstimate>;

    open spec fn view(&self) -> Seq<LinkEstimate> {
        self.links@
    }
}

/// Whether a link goes from one node to the other.
pub open spec fn joins(l: LinkEstimate, source: Uuid, destination: Uuid) -> bool {
    l.source == source && l.destination == destination
}

/// The first link between two nodes, or the count if there is none.
pub open spec fn link_at(links: Seq<LinkEstimate>, source: Uuid, destination: Uuid) -> int
    decreases links.len(),
{
    if links.len() == 0 || joins(links[0], source, destination) {
        0
    } else {
        1 + link_at(links.skip(1), source, destination)
    }
}

/// Every link stands once.
pub open spec fn links_apart(links: Seq<LinkEstimate>) -> bool {
    forall|i: int, j: int|
        0 <= i < j < links.len() ==> !joins(#[trigger] links[i], (#[trigger] links[j]).source, links[j].destination)
}

/// A new sample on top of what was known: `latency` and `rate` are the two
/// values smoothed, and a rate that only one of them has is kept.
pub open spec fn smoothed(known: LinkEstimate, sample: LinkEstimate, latency: Double, rate: Double) -> LinkEstimate {
    LinkEstimate {
        latency_ms: latency,
        bytes_per_second: match (sample.bytes_per_second, known.bytes_per_second) {
            (Some(_), Some(_)) => Some(rate),
            (Some(a), None) => Some(a),
            (None, b) => b,
        },
        ..sample
    }
}

/// The links after a sample.
pub open spec fn with_sample(links: Seq<LinkEstimate>, sample: LinkEstimate, latency: Double, rate: Double) -> Seq<
    LinkEstimate,
> {
    let at = link_at(links, sample.source, sample.destination);
    if at < links.len() {
        links.update(at, smoothed(links[at], sample, latency, rate))
    } else {
        links.push(sample)
    }
}

proof fn lemma_link_at(links: Seq<LinkEstimate>, source: Uuid, destination: Uuid)
    ensures
        0 <= link_at(links, source, destination) <= links.len(),
        link_at(links, source, destination) < links.len() ==> joins(
            links[link_at(links, source, destination)],
            source,
            destination,
        ),
        forall|i: int|
            0 <= i < link_at(links, source, destination) ==> !joins(#[trigger] links[i], source, destination),
    decreases links.len(),
{
    if links.len() > 0 && !joins(links[0], source, destination) {
        let rest = links.skip(1);
        lemma_link_at(rest, source, destination);
        assert forall|i: int| 0 <= i < link_at(links, source, destination) implies !joins(
            #[trigger] links[i],
            source,
            destination,
        ) by {
            if i > 0 {
                assert(rest[i - 1] == links[i]);
            }
        }
    }
}

impl LinkEstimate {
    /// What was measured between two nodes. Without bytes there is no rate.
    pub fn measured(source: Uuid, destination: Uuid, latency_ms: Double, bytes: usize, rate: Double, now_ms: u64) -> (r:
        Self)
        ensures
            r == (LinkEstimate {
                source,
                destination,
                latency_ms,
                bytes_per_second: if bytes > 0 {
                    Some(rate)
                } else {
                    None
                },
                sampled_at_ms: now_ms,
                active_transfers: 0,
            }),
    {
        LinkEstimate {
            source,
            destination,
            latency_ms,
            bytes_per_second: if bytes > 0 {
                Some(rate)
            } else {
                None
            },
            sampled_at_ms: now_ms,
            active_transfers: 0,
        }
    }
}

impl Topology {
    /// Nothing is known.
    pub fn new() -> (r: Self)
        ensures
            r@ == Seq::<LinkEstimate>::empty(),
    {
        let r = Topology { links: Vec::new() };
        assert(r@ =~= Seq::<LinkEstimate>::empty());
        r
    }

    /// An equal copy.
    pub fn duplicate(&self) -> (r: Self)
        ensures
            r@ == self@,
    {
        let links: Vec<LinkEstimate> = self.links.clone();
        assert(links@ =~= self.links@);
        Topology { links }
    }

    /// Where the link between two nodes is.
    fn position(&self, source: Uuid, destination: Uuid) -> (r: usize)
        ensures
            r == link_at(self@, source, destination),
            r <= self@.len(),
    {
        let mut i: usize = 0;
        proof {
            assert(self@.skip(0) =~= self@);
        }
        while i < self.links.len()
            invariant
                i <= self@.len(),
                link_at(self@, source, destination) == i + link_at(self@.skip(i as int), source, destination),
            decreases self@.len() - i,
        {
            proof {
                assert(self@.skip(i as int)[0] == self@[i as int]);
                assert(self@.skip(i as int).skip(1) =~= self@.skip(i + 1));
            }
            if self.links[i].source == source && self.links[i].destination == destination {
                return i;
            }
            i = i + 1;
        }
        i
    }

    /// What is known of the link between two nodes.
    pub fn link(&self, source: Uuid, destination: Uuid) -> (r: Option<LinkEstimate>)
        ensures
            r == {
                let at = link_at(self@, source, destination);
                if at < self@.len() {
                    Some(self@[at])
                } else {
                    None
                }
            },
    {
        let at: usize = self.position(source, destination);
        if at < self.links.len() {
            Some(self.links[at])
        } else {
            None
        }
    }

    /// Takes in a sample. Where the link is known, `latency` and `rate` are
    /// its values smoothed with the sample's.
    pub fn update(&mut self, sample: LinkEstimate, latency: Double, rate: Double)
        ensures
            final(self)@ == with_sample(old(self)@, sample, latency, rate),
            links_apart(old(self)@) ==> links_apart(final(self)@),
    {
        let ghost before = self@;
        let at: usize = self.position(sample.source, sample.destination);
        proof {
            lemma_link_at(before, sample.source, sample.destination);
        }
        if at < self.links.len() {
            let known: LinkEstimate = self.links[at];
            let mut next: LinkEstimate = sample;
            next.latency_ms = latency;
            next.bytes_per_second =
            match (sample.bytes_per_second, known.bytes_per_second) {
                (Some(_), Some(_)) => Some(rate),
                (Some(a), None) => Some(a),
                (None, b) => b,
            };
            self.links.set(at, next);
        } else {
            self.links.push(sample);
        }
        proof {
            if links_apart(before) {
                assert forall|i: int, j: int| 0 <= i < j < self@.len() implies !joins(
                    #[trigger] self@[i],
                    (#[trigger] self@[j]).source,
                    self@[j].destination,
                ) by {
                    if j < before.len() {
                        assert(!joins(before[i], before[j].source, before[j].destination));
                    }
                }
            }
        }
    }
}

/// After a sample the link it is of is known, and says nothing older.
pub proof fn law_sample_is_known(links: Seq<LinkEstimate>, sample: LinkEstimate, latency: Double, rate: Double)
    ensures
        ({
            let after = with_sample(links, sample, latency, rate);
            let at = link_at(after, sample.source, sample.destination);
            &&& 0 <= at < after.len()
            &&& after[at].sampled_at_ms == sample.sampled_at_ms
            &&& joins(after[at], sample.source, sample.destination)
        }),
{
    let after = with_sample(links, sample, latency, rate);
    let s = sample.source;
    let d = sample.destination;
    lemma_link_at(links, s, d);
    lemma_link_at(after, s, d);
    let was = link_at(links, s, d);
    let at = link_at(after, s, d);
    assert(joins(after[was], s, d));
    if at < was {
        assert(after[at] == links[at]);
        assert(!joins(links[at], s, d));
    }
    if was < at {
        assert(!joins(after[was], s, d));
    }
}

} // verus!
