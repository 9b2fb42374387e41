use k7s_lib::probe::{metrics_url, Event, Step};

fn forwarded() -> Step {
    Step::start(true).next(Event::Found).next(Event::Forwarded { port: 40123 })
}

#[test]
fn a_node_is_scraped_four_times_and_once_more() {
    let mut step = forwarded();
    for n in 0..4 {
        assert!(matches!(step, Step::Scrape { port: 40123, taken } if taken == n));
        step = step.next(Event::Scraped { sampled: n > 0 });
        match step {
            Step::Report { port: 40123, taken, show_size, sampled } => {
                assert_eq!(taken, n);
                assert_eq!(show_size, n == 0);
                assert_eq!(sampled, n > 0);
            }
            _ => panic!("the scrape is not reported"),
        }
        step = step.next(Event::Reported);
        assert!(matches!(step, Step::Pause { port: 40123, seconds: 2, .. }));
        step = step.next(Event::Paused);
    }
    assert!(matches!(step, Step::Scrape { port: 40123, taken: 4 }));
    step = step.next(Event::Scraped { sampled: true });
    assert!(matches!(step, Step::ReportFilesystems));
    step = step.next(Event::Reported);
    assert!(matches!(step, Step::StopForward));
    assert!(matches!(step.next(Event::Stopped), Step::Finish));
}

#[test]
fn without_a_last_sample_no_filesystems_are_reported() {
    let last = Step::Scrape { port: 1, taken: 4 };
    assert!(matches!(last.next(Event::Scraped { sampled: false }), Step::StopForward));
}

#[test]
fn an_unready_node_is_skipped() {
    assert!(matches!(Step::start(false), Step::SkipUnready));
    assert!(matches!(Step::start(false).next(Event::Found), Step::SkipUnready));
}

#[test]
fn a_node_without_an_exporter_is_skipped() {
    let step = Step::start(true).next(Event::NotFound { error: "no exporter".to_string() });
    assert!(matches!(step, Step::SkipUnfound { error } if error == "no exporter"));
}

#[test]
fn the_exporter_port_is_forwarded_to_a_free_one() {
    let step = Step::start(true).next(Event::Found);
    assert!(matches!(step, Step::Forward { remote: 9100, local: 0 }));
}

#[test]
fn a_failure_gives_up() {
    let failed = || Event::Failed { error: "refused".to_string() };
    let step = Step::start(true).next(Event::Found).next(failed());
    assert!(matches!(step, Step::Abort { error } if error == "refused"));
    assert!(matches!(forwarded().next(failed()), Step::Abort { error } if error == "refused"));
}

#[test]
fn a_probe_ignores_an_event_out_of_turn() {
    assert!(matches!(forwarded().next(Event::Paused), Step::Scrape { port: 40123, taken: 0 }));
}

#[test]
fn the_metrics_are_on_the_local_port() {
    assert_eq!(metrics_url(0), "http://127.0.0.1:0/metrics");
    assert_eq!(metrics_url(9100), "http://127.0.0.1:9100/metrics");
    assert_eq!(metrics_url(65535), "http://127.0.0.1:65535/metrics");
}
