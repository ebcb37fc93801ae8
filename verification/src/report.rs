//! What is told of a run: progress while it goes on, and a row for each scan.
use vstd::prelude::*;
use vstd::string::*;

use crate::result::{is_grpc_content_type, ScanRecord, ScanResult};
use crate::text::{concat, decimal, decimal_text, starts_with};

verus! {

/// How many scans are done, and what they have found.
#[derive(Debug)]
pub struct Tally {
    completed: usize,
    grpc_found: usize,
    reflection_found: usize,
}

/// The three numbers of a tally.
#[verifier::ext_equal]
pub struct TallyState {
    pub completed: nat,
    pub grpc_found: nat,
    pub reflection_found: nat,
}

impl View for Tally {
    type V = TallyState;

    closed spec fn view(&self) -> TallyState {
        TallyState {
            completed: self.completed as nat,
            grpc_found: self.grpc_found as nat,
            reflection_found: self.reflection_found as nat,
        }
    }
}

impl Tally {
    /// Nothing is found more often than there are scans done.
    #[verifier::type_invariant]
    closed spec fn within(self) -> bool {
        self.grpc_found <= self.completed && self.reflection_found <= self.completed
    }

    /// Before the first scan.
    pub fn new() -> (r: Self)
        ensures
            r@ == (TallyState { completed: 0, grpc_found: 0, reflection_found: 0 }),
    {
        Tally { completed: 0, grpc_found: 0, reflection_found: 0 }
    }

    /// Counts a scan, and tells how many are done with it.
    pub fn count(&mut self, grpc_detected: bool, reflection_enabled: bool) -> (r: usize)
        requires
            old(self)@.completed < usize::MAX,
        ensures
            r == old(self)@.completed + 1,
            final(self)@ == (TallyState {
                completed: old(self)@.completed + 1,
                grpc_found: old(self)@.grpc_found + if grpc_detected {
                    1nat
                } else {
                    0
                },
                reflection_found: old(self)@.reflection_found + if reflection_enabled {
                    1nat
                } else {
                    0
                },
            }),
    {
        proof {
            use_type_invariant(&*self);
        }
        let completed: usize = self.completed + 1;
        let grpc_found: usize = if grpc_detected {
            self.grpc_found + 1
        } else {
            self.grpc_found
        };
        let reflection_found: usize = if reflection_enabled {
            self.reflection_found + 1
        } else {
            self.reflection_found
        };
        *self = Tally { completed, grpc_found, reflection_found };
        completed
    }

    /// How many scans are done.
    pub fn completed(&self) -> (r: usize)
        ensures
            r == self@.completed,
    {
        self.completed
    }

    /// How many endpoints speak gRPC.
    pub fn grpc_found(&self) -> (r: usize)
        ensures
            r == self@.grpc_found,
            r <= self@.completed,
    {
        proof {
            use_type_invariant(self);
        }
        self.grpc_found
    }

    /// How many endpoints list their services.
    pub fn reflection_found(&self) -> (r: usize)
        ensures
            r == self@.reflection_found,
            r <= self@.completed,
    {
        proof {
            use_type_invariant(self);
        }
        self.reflection_found
    }
}

/// What is said when a scan is done.
#[derive(Debug, Clone, Copy, PartialEq, Eq, Structural)]
pub enum Progress {
    /// That gRPC has been found.
    Found,
    /// How many scans are done.
    Count,
    /// Nothing.
    Quiet,
}

/// After how many scans their number is told.
pub const COUNT_EVERY: usize = 500;

/// What is said when the `n`-th scan is done: always that gRPC has been found;
/// otherwise how many are done, each time if so wanted and else now and then.
pub open spec fn progress_after(n: nat, grpc_detected: bool, verbose: bool) -> Progress {
    if grpc_detected {
        Progress::Found
    } else if verbose || n % COUNT_EVERY as nat == 0 {
        Progress::Count
    } else {
        Progress::Quiet
    }
}

/// What is said when the `n`-th scan is done.
pub fn progress(n: usize, grpc_detected: bool, verbose: bool) -> (r: Progress)
    ensures
        r == progress_after(n as nat, grpc_detected, verbose),
{
    if grpc_detected {
        Progress::Found
    } else if verbose || n % COUNT_EVERY == 0 {
        Progress::Count
    } else {
        Progress::Quiet
    }
}

/// What is said of an endpoint that speaks gRPC.
pub open spec fn found_text(r: ScanRecord) -> Seq<char> {
    "\u{2713} gRPC FOUND: "@ + r.domain + ":"@ + decimal(r.port as nat) + " | reflection:"@ + (
    if r.reflection_enabled {
        "YES"@
    } else {
        "no"@
    }) + " | services:"@ + decimal(r.services_count as nat) + " | tls:"@ + (if r.tls_enabled {
        r.tls_version
    } else {
        "none"@
    })
}

/// What is said of an endpoint that speaks gRPC.
pub fn found_message(result: &ScanResult) -> (r: String)
    ensures
        r@ == found_text(result@),
{
    let mut r = concat("\u{2713} gRPC FOUND: ", result.domain.as_str());
    r.append(":");
    r.append(decimal_text(result.port as u64).as_str());
    r.append(" | reflection:");
    r.append(
        if result.reflection_enabled {
            "YES"
        } else {
            "no"
        },
    );
    r.append(" | services:");
    r.append(decimal_text(result.services_count as u64).as_str());
    r.append(" | tls:");
    r.append(
        if result.tls_enabled {
            result.tls_version.as_str()
        } else {
            "none"
        },
    );
    r
}

/// What is said of how many scans are done.
pub fn count_message(n: usize) -> (r: String)
    ensures
        r@ == decimal(n as nat) + " scans complete"@,
{
    concat(decimal_text(n as u64).as_str(), " scans complete")
}

/// By which signals gRPC has been detected: the content type of the response,
/// the status in its trailers, or both. Beside a content type of gRPC, a status
/// that is empty or cannot be read is not told of.
pub open spec fn signal_text(
    grpc_detected: bool,
    content_type: Seq<char>,
    grpc_status: Seq<char>,
) -> Seq<char> {
    if !grpc_detected {
        Seq::empty()
    } else if !is_grpc_content_type(content_type) {
        "grpc-status"@
    } else if grpc_status.len() == 0 {
        "content-type"@
    } else {
        "content-type;grpc-status"@
    }
}

/// By which signals gRPC has been detected.
pub fn detection_signal(grpc_detected: bool, content_type: &str, grpc_status: &str) -> (r: String)
    ensures
        r@ == signal_text(grpc_detected, content_type@, grpc_status@),
{
    if !grpc_detected {
        String::new()
    } else if !starts_with(content_type, "application/grpc") {
        "grpc-status".to_owned()
    } else if grpc_status.is_empty() {
        "content-type".to_owned()
    } else {
        "content-type;grpc-status".to_owned()
    }
}

/// gRPC is always told of when it is found and never otherwise; the number of
/// scans is told of after each that finds none, if so wanted, and else after
/// every five hundredth.
pub proof fn lemma_progress_told(n: nat, grpc_detected: bool, verbose: bool)
    ensures
        progress_after(n, grpc_detected, verbose) == Progress::Found <==> grpc_detected,
        progress_after(n, grpc_detected, verbose) == Progress::Count <==> !grpc_detected && (verbose
            || n % 500 == 0),
        progress_after(n, grpc_detected, verbose) == Progress::Quiet <==> !grpc_detected && !verbose
            && n % 500 != 0,
{
}

/// What is said of an endpoint, part by part.
pub proof fn lemma_found_told(r: ScanRecord)
    ensures
        ({
            let reflection = if r.reflection_enabled {
                "YES"@
            } else {
                "no"@
            };
            let tls = if r.tls_enabled {
                r.tls_version
            } else {
                "none"@
            };
            found_text(r) == "\u{2713} gRPC FOUND: "@ + r.domain + ":"@ + decimal(r.port as nat)
                + " | reflection:"@ + reflection + " | services:"@ + decimal(
                r.services_count as nat,
            ) + " | tls:"@ + tls
        }),
{
}

/// Which signals are told of: none without gRPC; with it the content type exactly
/// if its first sixteen characters are `application/grpc`, and the status if there
/// is one or nothing else is.
pub proof fn lemma_signals_told(
    grpc_detected: bool,
    content_type: Seq<char>,
    grpc_status: Seq<char>,
)
    ensures
        ({
            let signal = signal_text(grpc_detected, content_type, grpc_status);
            let typed = content_type.len() >= 16 && content_type.take(16) == "application/grpc"@;
            &&& !grpc_detected ==> signal.len() == 0
            &&& grpc_detected && typed && grpc_status.len() > 0 ==> signal
                == "content-type;grpc-status"@
            &&& grpc_detected && typed && grpc_status.len() == 0 ==> signal == "content-type"@
            &&& grpc_detected && !typed ==> signal == "grpc-status"@
        }),
{
    reveal_strlit("application/grpc");
    if content_type.len() >= 16 {
        assert(content_type.take(16) =~= content_type.subrange(0, 16));
    }
}

} // verus!
