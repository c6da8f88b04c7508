//! State of the capability prober, which runs a command under the tracer.

use vstd::prelude::*;
use crate::assoc::texts;
use crate::caps::{cap_index_of, cap_names_below, comma_join, has_cap, names_bits, Caps, CAP_COUNT};
use crate::policy::{Policy, PolicyModel};

verus! {

/// Why probing failed.
#[derive(Clone, Copy, Debug, PartialEq, Eq, Structural)]
pub enum ProbeError {
    /// No tracer path was given and none was found.
    ToolNotFound,
    /// The tracer left no valid policy in its output file.
    TraceOutputInvalid,
    /// A capability was requested that the caller's bounding set does not hold.
    CapabilityBoundingViolation,
    /// A capability name denotes no capability.
    UnknownCapability,
}

/// The prober: the tracer, the command it traces and the capabilities being tried.
#[derive(Debug)]
pub struct Prober {
    /// Path of the tracer executable.
    pub path: String,
    /// The traced command.
    pub command: Vec<String>,
    /// Path of the file in which the tracer writes the policy it observed.
    pub scratch: String,
    /// The capabilities of the caller's bounding set.
    pub bounding: Caps,
    /// The capabilities tried before the last addition.
    pub previous_caps: Caps,
    /// The capabilities tried by the next run.
    pub caps: Caps,
    /// Whether a run has completed.
    pub ran: bool,
    /// Whether the last run failed.
    pub failed: bool,
    /// Standard output captured from the last run.
    pub last_stdout: String,
    /// Standard error captured from the last run.
    pub last_stderr: String,
}

/// The arguments of a tracer run: `-c <caps> -l error -o <scratch>` and the command.
pub open spec fn probe_arguments(caps_text: Seq<char>, scratch: Seq<char>, command: Seq<Seq<char>>) -> Seq<Seq<char>> {
    seq![seq!['-', 'c'], caps_text, seq!['-', 'l'], seq!['e', 'r', 'r', 'o', 'r'], seq!['-', 'o'], scratch] + command
}

/// Pushes a copy of `s` onto `v`.
fn push_copy(v: &mut Vec<String>, s: &str)
    ensures
        texts(final(v)@) == texts(old(v)@).push(s@),
{
    let mut c = String::new();
    c.append(s);
    v.push(c);
    assert(texts(final(v)@) =~= texts(old(v)@).push(s@));
}

impl Prober {
    /// Whether the sets hold known capabilities only.
    pub open spec fn wf(&self) -> bool {
        self.bounding.wf() && self.caps.wf() && self.previous_caps.wf()
    }

    /// A prober for `command`. The tracer is `path` if given, else `found`, the tracer
    /// found on the search path; with neither the prober cannot be made. Probing starts
    /// from no capability when `fail_then_add` holds, else from the whole bounding set.
    pub fn new(
        path: Option<String>,
        found: Option<String>,
        command: Vec<String>,
        fail_then_add: bool,
        bounding: Caps,
        scratch: String,
    ) -> (r: Result<Prober, ProbeError>)
        requires
            bounding.wf(),
        ensures
            path is None && found is None <==> r == Err::<Prober, ProbeError>(ProbeError::ToolNotFound),
            r is Ok <==> (path is Some || found is Some),
            r is Ok ==> {
                let p = r->Ok_0;
                &&& p.wf()
                &&& p.path@ == (if path is Some { path->Some_0@ } else { found->Some_0@ })
                &&& texts(p.command@) == texts(command@)
                &&& p.scratch@ == scratch@
                &&& p.bounding == bounding
                &&& p.caps.bits == (if fail_then_add { 0 } else { bounding.bits })
                &&& p.previous_caps.bits == 0
                &&& !p.ran
                &&& !p.failed
            },
    {
        let tracer = match path {
            Some(p) => p,
            None => match found {
                Some(f) => f,
                None => return Err(ProbeError::ToolNotFound),
            },
        };
        let caps = if fail_then_add { Caps::empty() } else { bounding };
        Ok(Prober {
            path: tracer,
            command,
            scratch,
            bounding,
            previous_caps: Caps::empty(),
            caps,
            ran: false,
            failed: false,
            last_stdout: String::new(),
            last_stderr: String::new(),
        })
    }

    /// Whether a run has completed.
    pub fn has_ran(&self) -> (r: bool)
        ensures
            r == self.ran,
    {
        self.ran
    }

    /// Whether the last run failed.
    pub fn is_failed(&self) -> (r: bool)
        ensures
            r == self.failed,
    {
        self.failed
    }

    /// Adds `delta` to the capabilities tried; a capability outside the bounding set is
    /// refused and leaves the prober unchanged.
    pub fn add_caps(&mut self, delta: Caps) -> (r: Result<(), ProbeError>)
        requires
            old(self).wf(),
            delta.wf(),
        ensures
            final(self).wf(),
            delta.bits & !old(self).bounding.bits == 0 ==> {
                &&& r == Ok::<(), ProbeError>(())
                &&& *final(self) == (Prober {
                    previous_caps: old(self).caps,
                    caps: Caps { bits: old(self).caps.bits | delta.bits },
                    ..*old(self)
                })
            },
            delta.bits & !old(self).bounding.bits != 0 ==> {
                &&& r == Err::<(), ProbeError>(ProbeError::CapabilityBoundingViolation)
                &&& *final(self) == *old(self)
            },
    {
        if !delta.is_subset_of(self.bounding) {
            return Err(ProbeError::CapabilityBoundingViolation);
        }
        self.previous_caps = self.caps;
        self.caps = self.caps.union(delta);
        Ok(())
    }

    /// Adds the named capabilities to those tried (see `add_caps`); a name that denotes
    /// no capability is refused and leaves the prober unchanged.
    pub fn add_cap_names(&mut self, names: &Vec<String>) -> (r: Result<(), ProbeError>)
        requires
            old(self).wf(),
        ensures
            final(self).wf(),
            match names_bits(texts(names@)) {
                None => r == Err::<(), ProbeError>(ProbeError::UnknownCapability) && *final(self) == *old(self),
                Some(b) => if b & !old(self).bounding.bits == 0 {
                    &&& r == Ok::<(), ProbeError>(())
                    &&& *final(self) == (Prober {
                        previous_caps: old(self).caps,
                        caps: Caps { bits: old(self).caps.bits | b },
                        ..*old(self)
                    })
                } else {
                    r == Err::<(), ProbeError>(ProbeError::CapabilityBoundingViolation) && *final(self) == *old(self)
                },
            },
            r is Ok ==> forall|j: int| 0 <= j < names@.len() ==> {
                let k = cap_index_of(#[trigger] names@[j]@);
                k is Some && k->Some_0 < CAP_COUNT && has_cap(final(self).caps.bits, k->Some_0)
            },
    {
        match Caps::from_names(names) {
            Ok(delta) => {
                let r = self.add_caps(delta);
                proof {
                    if r is Ok {
                        assert forall|j: int| 0 <= j < names@.len() implies {
                            let k = cap_index_of(#[trigger] names@[j]@);
                            k is Some && k->Some_0 < CAP_COUNT && has_cap(self.caps.bits, k->Some_0)
                        } by {
                            let k = cap_index_of(names@[j]@)->Some_0;
                            crate::caps::lemma_or_keeps_bit(old(self).caps.bits, delta.bits, k);
                        }
                    }
                }
                r
            },
            Err(_) => Err(ProbeError::UnknownCapability),
        }
    }

    /// The arguments with which the tracer is run next.
    pub fn arguments(&self) -> (r: Vec<String>)
        ensures
            texts(r@) == probe_arguments(
                comma_join(cap_names_below(self.caps.bits, CAP_COUNT)),
                self.scratch@,
                texts(self.command@),
            ),
    {
        let mut r: Vec<String> = Vec::new();
        assert(texts(r@) =~= Seq::<Seq<char>>::empty());
        push_copy(&mut r, "-c");
        let caps_text = self.caps.to_text();
        push_copy(&mut r, caps_text.as_str());
        push_copy(&mut r, "-l");
        push_copy(&mut r, "error");
        push_copy(&mut r, "-o");
        push_copy(&mut r, self.scratch.as_str());
        let ghost head = texts(r@);
        proof {
            reveal_strlit("-c");
            reveal_strlit("-l");
            reveal_strlit("error");
            reveal_strlit("-o");
            assert(head.len() == 6);
            assert(head[0] =~= seq!['-', 'c']);
            assert(head[1] =~= caps_text@);
            assert(head[2] =~= seq!['-', 'l']);
            assert(head[3] =~= seq!['e', 'r', 'r', 'o', 'r']);
            assert(head[4] =~= seq!['-', 'o']);
            assert(head[5] =~= self.scratch@);
            assert(head =~= seq![seq!['-', 'c'], caps_text@, seq!['-', 'l'], seq!['e', 'r', 'r', 'o', 'r'], seq!['-', 'o'], self.scratch@]);
        }
        let mut i: usize = 0;
        while i < self.command.len()
            invariant
                i <= self.command@.len(),
                texts(r@) == head + texts(self.command@).subrange(0, i as int),
            decreases self.command@.len() - i,
        {
            push_copy(&mut r, self.command[i].as_str());
            assert(texts(r@) =~= head + texts(self.command@).subrange(0, i + 1));
            i = i + 1;
        }
        proof {
            assert(texts(self.command@).subrange(0, self.command@.len() as int) =~= texts(self.command@));
            assert(texts(r@) =~= probe_arguments(
                comma_join(cap_names_below(self.caps.bits, CAP_COUNT)),
                self.scratch@,
                texts(self.command@),
            ));
        }
        r
    }

    /// Records a finished run: its exit status, its captured output, and the policy read
    /// back from the output file (`None` when the file was missing or not a policy). A
    /// policy read back is stamped with the caller's own `uid` and `groups`.
    pub fn finish_run(
        &mut self,
        success: bool,
        stdout: String,
        stderr: String,
        parsed: Option<Policy>,
        uid: u32,
        groups: &Vec<u32>,
    ) -> (r: Result<Policy, ProbeError>)
        requires
            old(self).wf(),
            parsed is Some ==> parsed->Some_0.wf(),
        ensures
            final(self).wf(),
            *final(self) == (Prober {
                failed: !success,
                ran: old(self).ran || parsed is Some,
                last_stdout: stdout,
                last_stderr: stderr,
                ..*old(self)
            }),
            match parsed {
                None => r == Err::<Policy, ProbeError>(ProbeError::TraceOutputInvalid),
                Some(p) => r is Ok && r->Ok_0.wf()
                    && r->Ok_0@ == (PolicyModel { setuid: Some(uid), setgid: Some(groups@), ..p@ }),
            },
    {
        self.failed = !success;
        self.last_stdout = stdout;
        self.last_stderr = stderr;
        match parsed {
            None => Err(ProbeError::TraceOutputInvalid),
            Some(mut p) => {
                p.stamp_credentials(uid, groups);
                self.ran = true;
                Ok(p)
            },
        }
    }
}

} // verus!
