use simple_server::on_message;
use simple_server::Action;
use simple_server::Message;
use simple_server::Worker;

#[test]
fn fresh_worker_runs_and_is_unjoined() {
    let w = Worker::new(3);
    assert_eq!(w.id, 3);
    assert!(w.running);
    assert!(!w.joined);
}

#[test]
fn a_job_message_is_run() {
    assert_eq!(on_message(Message::NewJob(5)), Action::Run(5));
}

#[test]
fn a_terminate_message_stops_the_loop() {
    assert_eq!(on_message(Message::Terminate), Action::Stop);
}
