//! Jobs: the per-type configuration surface and its defaults, the
//! registry that binds type tags to profiles, and the example job type
//! with its payload round trip.

use vstd::prelude::*;
use vstd::arithmetic::power2::pow2;

use crate::codec::{
    lemma_parse_encode, spec_encode_payload, spec_parse_payload, Payload,
};
use crate::text::str_eq;

verus! {

/// The queue jobs go to when their type names none.
pub fn default_queue() -> (q: String)
    ensures
        q@ == "default"@,
{
    String::from_str("default")
}

/// How many attempts a job type allows when it overrides nothing.
pub fn default_tries() -> (n: u32)
    ensures
        n == 1,
{
    1
}

/// The handler timeout in seconds when a type overrides nothing.
pub fn default_timeout() -> (n: u64)
    ensures
        n == 300,
{
    300
}

/// The default backoff before the retry after the `attempt`-th failure:
/// two to that power, in seconds.
pub fn default_backoff(attempt: u32) -> (r: u32)
    requires
        attempt < 32,
    ensures
        r == pow2(attempt as nat),
{
    let mut r: u32 = 1;
    let mut i: u32 = 0;
    proof {
        vstd::arithmetic::power2::lemma2_to64();
    }
    while i < attempt
        invariant
            i <= attempt,
            attempt < 32,
            r == pow2(i as nat),
        decreases attempt - i,
    {
        proof {
            vstd::arithmetic::power2::lemma2_to64();
            vstd::arithmetic::power2::lemma_pow2_unfold((i + 1) as nat);
            if ((i + 1) as nat) < 31 {
                vstd::arithmetic::power2::lemma_pow2_strictly_increases((i + 1) as nat, 31);
            }
        }
        r = r * 2;
        i = i + 1;
    }
    r
}

/// The per-type configuration the worker reads through the registry.
pub struct JobProfile {
    pub queue: String,
    pub tries: u32,
    pub timeout: u64,
}

/// The mathematical shape of a profile.
#[verifier::ext_equal]
pub struct JobProfileModel {
    pub queue: Seq<char>,
    pub tries: u32,
    pub timeout: u64,
}

impl View for JobProfile {
    type V = JobProfileModel;

    open spec fn view(&self) -> JobProfileModel {
        JobProfileModel { queue: self.queue@, tries: self.tries, timeout: self.timeout }
    }
}

/// The job registry: binds each type tag to the profile of that type.
/// A payload whose tag resolves to nothing is treated by the runner as
/// a fatal decode failure.
pub struct Registry {
    entries: Vec<(String, JobProfile)>,
}

impl View for Registry {
    type V = Seq<(Seq<char>, JobProfileModel)>;

    closed spec fn view(&self) -> Seq<(Seq<char>, JobProfileModel)> {
        Seq::new(self.entries@.len(), |i: int| (self.entries@[i].0@, self.entries@[i].1@))
    }
}

impl Registry {
    /// An empty registry.
    pub fn new() -> (r: Registry)
        ensures
            r@.len() == 0,
    {
        Registry { entries: Vec::new() }
    }

    /// Binds a type tag to its profile.
    pub fn register(&mut self, tag: String, profile: JobProfile)
        ensures
            final(self)@ == old(self)@.push((tag@, profile@)),
    {
        self.entries.push((tag, profile));
        proof {
            assert(self@ =~= old(self)@.push((tag@, profile@)));
        }
    }

    /// Resolves a tag to the first profile registered for it.
    pub fn resolve(&self, tag: &str) -> (r: Option<&JobProfile>)
        ensures
            match r {
                Option::Some(p) => exists|i: int|
                    0 <= i < self@.len() && (#[trigger] self@[i]).0 == tag@ && self@[i].1 == p@
                        && forall|k: int| 0 <= k < i ==> (#[trigger] self@[k]).0 != tag@,
                Option::None => forall|k: int|
                    0 <= k < self@.len() ==> (#[trigger] self@[k]).0 != tag@,
            },
    {
        let n = self.entries.len();
        let mut i: usize = 0;
        while i < n
            invariant
                i <= n,
                n == self@.len(),
                forall|k: int| 0 <= k < i ==> (#[trigger] self@[k]).0 != tag@,
            decreases n - i,
        {
            if str_eq(self.entries[i].0.as_str(), tag) {
                let p = &self.entries[i].1;
                proof {
                    let w: int = i as int;
                    assert(0 <= w < self@.len() && (#[trigger] self@[w]).0 == tag@ && self@[w].1
                        == p@ && forall|k: int| 0 <= k < w ==> (#[trigger] self@[k]).0 != tag@);
                }
                return Some(p);
            }
            i += 1;
        }
        None
    }
}

/// The example job type: greets with its message.
pub struct HelloJob {
    pub message: String,
}

impl HelloJob {
    /// The type tag this job stores in its payload.
    pub fn tag() -> (t: String)
        ensures
            t@ == "HelloJob"@,
    {
        String::from_str("HelloJob")
    }

    /// Serializes the job into a payload record.
    pub fn to_payload(&self) -> (p: Payload)
        ensures
            p@.tag == "HelloJob"@,
            p@.fields == seq![("message"@, self.message@)],
    {
        let mut fields: Vec<(String, String)> = Vec::new();
        fields.push((String::from_str("message"), self.message.clone()));
        let p = Payload { tag: String::from_str("HelloJob"), fields };
        proof {
            assert(p@.fields =~= seq![("message"@, self.message@)]);
        }
        p
    }

    /// Reconstructs a job from a payload record of this type.
    pub fn from_payload(p: &Payload) -> (r: Option<HelloJob>)
        ensures
            match r {
                Option::Some(j) => p@.tag == "HelloJob"@ && p@.fields.len() == 1
                    && p@.fields[0].0 == "message"@ && j.message@ == p@.fields[0].1,
                Option::None => !(p@.tag == "HelloJob"@ && p@.fields.len() == 1 && p@.fields[0].0
                    == "message"@),
            },
    {
        if !str_eq(p.tag.as_str(), "HelloJob") {
            return None;
        }
        if p.fields.len() != 1 {
            return None;
        }
        let kv: &(String, String) = &p.fields[0];
        if !str_eq(kv.0.as_str(), "message") {
            return None;
        }
        Some(HelloJob { message: kv.1.clone() })
    }
}

/// Law: round trip for the registered job type.  The canonical text of
/// a `HelloJob`'s payload parses back to exactly that tag and message,
/// so `from_payload` rebuilds an equal job.
pub proof fn lemma_hello_roundtrip(msg: Seq<char>)
    ensures
        spec_parse_payload(spec_encode_payload("HelloJob"@, seq![("message"@, msg)])) == Some(
            ("HelloJob"@, seq![("message"@, msg)]),
        ),
{
    lemma_parse_encode("HelloJob"@, seq![("message"@, msg)]);
}

} // verus!
