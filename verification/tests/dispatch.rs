use upwork_rss::dispatch::{
    duplicate, first_step, next_step, notification_for, passes_allow_list, select_allowed, LoopStep,
};
use upwork_rss::job::JobListing;

fn job(link: &str, country: &str) -> JobListing {
    JobListing {
        link: link.to_string(),
        title: format!("title of {}", link),
        description: format!("<html>{}</html>", link),
        country: country.to_string(),
    }
}

#[test]
fn allow_list_forwards_what_it_names() {
    let allow = vec!["France".to_string()];
    assert!(passes_allow_list(&job("a", "France"), &allow));
}

#[test]
fn allow_list_holds_back_what_it_does_not_name() {
    let allow = vec!["France".to_string()];
    assert!(!passes_allow_list(&job("a", "Germany"), &allow));
    assert!(!passes_allow_list(&job("a", ""), &allow));
    assert!(!passes_allow_list(&job("a", "france"), &allow));
}

#[test]
fn empty_allow_list_forwards_everything() {
    let allow: Vec<String> = Vec::new();
    assert!(passes_allow_list(&job("a", "France"), &allow));
    assert!(passes_allow_list(&job("b", "Germany"), &allow));
    assert!(passes_allow_list(&job("c", ""), &allow));
}

#[test]
fn allow_list_with_several_names() {
    let allow = vec!["France".to_string(), "Spain".to_string(), "Italy".to_string()];
    assert!(passes_allow_list(&job("a", "Italy"), &allow));
    assert!(passes_allow_list(&job("a", "Spain"), &allow));
    assert!(!passes_allow_list(&job("a", "Portugal"), &allow));
}

#[test]
fn selection_keeps_order() {
    let jobs = vec![job("1", "France"), job("2", "Germany"), job("3", "Spain"), job("4", "France")];
    let allow = vec!["France".to_string(), "Spain".to_string()];
    let forwarded = select_allowed(&jobs, &allow);
    let links: Vec<&str> = forwarded.iter().map(|j| j.link.as_str()).collect();
    assert_eq!(links, vec!["1", "3", "4"]);
    assert_eq!(forwarded[1].title, "title of 3");
    assert_eq!(forwarded[1].description, "<html>3</html>");
    assert_eq!(forwarded[1].country, "Spain");
}

#[test]
fn selection_with_empty_allow_list_is_everything() {
    let jobs = vec![job("1", "France"), job("2", "Germany")];
    let forwarded = select_allowed(&jobs, &Vec::new());
    let links: Vec<&str> = forwarded.iter().map(|j| j.link.as_str()).collect();
    assert_eq!(links, vec!["1", "2"]);
}

#[test]
fn selection_of_nothing_is_nothing() {
    assert!(select_allowed(&Vec::new(), &vec!["France".to_string()]).is_empty());
}

#[test]
fn duplicate_copies_every_field() {
    let posting = job("x", "Chile");
    let copy = duplicate(&posting);
    assert_eq!(copy.link, posting.link);
    assert_eq!(copy.title, posting.title);
    assert_eq!(copy.description, posting.description);
    assert_eq!(copy.country, posting.country);
}

#[test]
fn loop_starts_with_a_cycle_unless_cancelled() {
    assert_eq!(first_step(false), LoopStep::Poll);
    assert_eq!(first_step(true), LoopStep::Stop);
}

#[test]
fn a_cycle_is_followed_by_the_pause() {
    assert_eq!(next_step(LoopStep::Poll, false), LoopStep::Sleep);
    assert_eq!(next_step(LoopStep::Poll, true), LoopStep::Sleep);
}

#[test]
fn the_pause_is_followed_by_a_cycle_or_the_end() {
    assert_eq!(next_step(LoopStep::Sleep, false), LoopStep::Poll);
    assert_eq!(next_step(LoopStep::Sleep, true), LoopStep::Stop);
}

#[test]
fn a_stopped_loop_stays_stopped() {
    assert_eq!(next_step(LoopStep::Stop, false), LoopStep::Stop);
    assert_eq!(next_step(LoopStep::Stop, true), LoopStep::Stop);
}

#[test]
fn notification_carries_title_and_description() {
    let posting = job("https://example.org/1", "France");
    let note = notification_for(&posting, "watcher@example.org", "me@example.org");
    assert_eq!(note.from_address, "upwork rss<watcher@example.org>");
    assert_eq!(note.to_address, "me@example.org");
    assert_eq!(note.subject, "title of https://example.org/1");
    assert_eq!(note.html_body, "<html>https://example.org/1</html>");
}
