//! What the polling loop decides: when to go on, and which of the new
//! postings are handed to the notifier.

use vstd::prelude::*;
use crate::job::{JobListing, ListingView, listings_view};

verus! {

/// Whether a posting with the attribute `country` passes the allow-list: an
/// empty list lets everything pass, another only what it names.
pub open spec fn allowed(country: Seq<char>, allow: Seq<String>) -> bool {
    allow.len() == 0 || exists|i: int| 0 <= i < allow.len() && (#[trigger] allow[i])@ == country
}

/// The postings that pass the allow-list, in their order.
pub open spec fn allowed_listings(listings: Seq<ListingView>, allow: Seq<String>) -> Seq<
    ListingView,
>
    decreases listings.len(),
{
    if listings.len() == 0 {
        Seq::<ListingView>::empty()
    } else {
        let before = allowed_listings(listings.drop_last(), allow);
        if allowed(listings.last().country, allow) {
            before.push(listings.last())
        } else {
            before
        }
    }
}

/// With an empty allow-list every posting is forwarded.
pub proof fn lemma_empty_allow_list_forwards_all(listings: Seq<ListingView>, allow: Seq<String>)
    requires
        allow.len() == 0,
    ensures
        allowed_listings(listings, allow) == listings,
    decreases listings.len(),
{
    if listings.len() > 0 {
        lemma_empty_allow_list_forwards_all(listings.drop_last(), allow);
        assert(listings.drop_last().push(listings.last()) =~= listings);
    }
}

/// Whether `job` is to be handed to the notifier under the allow-list.
pub fn passes_allow_list(job: &JobListing, allow: &Vec<String>) -> (pass: bool)
    ensures
        pass == allowed(job@.country, allow@),
{
    if allow.len() == 0 {
        return true;
    }
    let mut i: usize = 0;
    while i < allow.len()
        invariant
            i <= allow.len(),
            forall|k: int| 0 <= k < i ==> (#[trigger] allow[k])@ != job@.country,
        decreases allow.len() - i,
    {
        if allow[i] == job.country {
            return true;
        }
        i += 1;
    }
    false
}

/// A copy of `job`.
pub fn duplicate(job: &JobListing) -> (copy: JobListing)
    ensures
        copy@ == job@,
{
    JobListing {
        link: job.link.clone(),
        title: job.title.clone(),
        description: job.description.clone(),
        country: job.country.clone(),
    }
}

/// The postings of a cycle that are handed to the notifier, in their order.
pub fn select_allowed(new_jobs: &Vec<JobListing>, allow: &Vec<String>) -> (forwarded: Vec<
    JobListing,
>)
    ensures
        listings_view(forwarded@) == allowed_listings(listings_view(new_jobs@), allow@),
{
    let ghost all = listings_view(new_jobs@);
    let mut forwarded: Vec<JobListing> = Vec::new();
    let mut i: usize = 0;
    assert(listings_view(forwarded@) =~= Seq::<ListingView>::empty());
    while i < new_jobs.len()
        invariant
            i <= new_jobs.len(),
            all == listings_view(new_jobs@),
            listings_view(forwarded@) == allowed_listings(all.take(i as int), allow@),
        decreases new_jobs.len() - i,
    {
        let job = &new_jobs[i];
        proof {
            let upto = all.take(i as int + 1);
            assert(upto.drop_last() =~= all.take(i as int));
            assert(upto.last() == job@);
        }
        let ghost before = listings_view(forwarded@);
        if passes_allow_list(job, allow) {
            forwarded.push(duplicate(job));
            assert(listings_view(forwarded@) =~= before.push(job@));
        }
        i += 1;
    }
    assert(all.take(i as int) =~= all);
    forwarded
}

/// What the notifier is handed for one posting.
#[derive(Debug)]
pub struct Notification {
    pub from_address: String,
    pub to_address: String,
    pub subject: String,
    pub html_body: String,
}

/// How the sender of a notification is written: a fixed display name, then
/// the address between angle brackets.
pub open spec fn sender_mailbox(address: Seq<char>) -> Seq<char> {
    "upwork rss<"@ + address + ">"@
}

/// The notification for `job`: the title as the subject, the description as
/// the body, from the sender's mailbox to the recipient.
pub fn notification_for(job: &JobListing, from: &str, recipient: &str) -> (note: Notification)
    ensures
        note.from_address@ == sender_mailbox(from@),
        note.to_address@ == recipient@,
        note.subject@ == job@.title,
        note.html_body@ == job@.description,
{
    Notification {
        from_address: String::from_str("upwork rss<").concat(from).concat(">"),
        to_address: String::from_str(recipient),
        subject: job.title.clone(),
        html_body: job.description.clone(),
    }
}

/// What the loop does next.
#[derive(Debug, Clone, Copy, PartialEq, Eq, Structural)]
pub enum LoopStep {
    /// Run one cycle: retrieve, diff, notify.
    Poll,
    /// Pause for the interval.
    Sleep,
    /// Leave the loop.
    Stop,
}

/// The step that follows `last`, given whether cancellation was asked for.
/// Cancellation is looked at only before a cycle starts: a cycle is always
/// followed by the pause, and the pause by a cycle unless the loop was
/// cancelled. Once stopped, the loop stays stopped.
pub open spec fn step_after(last: LoopStep, cancelled: bool) -> LoopStep {
    match last {
        LoopStep::Poll => LoopStep::Sleep,
        LoopStep::Sleep => if cancelled {
            LoopStep::Stop
        } else {
            LoopStep::Poll
        },
        LoopStep::Stop => LoopStep::Stop,
    }
}

/// The first step of a loop.
pub fn first_step(cancelled: bool) -> (step: LoopStep)
    ensures
        step == step_after(LoopStep::Sleep, cancelled),
{
    if cancelled {
        LoopStep::Stop
    } else {
        LoopStep::Poll
    }
}

/// The step that follows `last`. How the cycle or a delivery ended plays no
/// part: only cancellation ends the loop.
pub fn next_step(last: LoopStep, cancelled: bool) -> (step: LoopStep)
    ensures
        step == step_after(last, cancelled),
        step == LoopStep::Stop ==> cancelled || last == LoopStep::Stop,
{
    match last {
        LoopStep::Poll => LoopStep::Sleep,
        LoopStep::Sleep => first_step(cancelled),
        LoopStep::Stop => LoopStep::Stop,
    }
}

} // verus!
