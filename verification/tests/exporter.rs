use rsync_net_exporter::exporter::{first_record, observe, Observation};
use rsync_net_exporter::parser::{parse_quota_output, ParseError};
use rsync_net_exporter::ssh::{check_authenticated, check_exit_status, FetchError, SshFetcher};

const REPORT: &str = "Filesystem      Usage\ndata1           1.5\ndata2           2.5\n";

#[test]
fn first_record_is_published() {
    let o = observe(Ok(REPORT.to_string()));
    assert!(o.is_up());
    match o {
        Observation::Healthy(q) => {
            assert_eq!(q.filesystem, "data1");
            assert_eq!(q.usage, "1.5");
        }
        other => panic!("not healthy: {:?}", other),
    }
    let records = parse_quota_output(REPORT).unwrap();
    assert_eq!(first_record(records.clone()), Observation::Healthy(records[0].clone()));
}

#[test]
fn report_without_records_is_down() {
    let o = observe(Ok("Filesystem      Usage\n\n*note\n".to_string()));
    assert_eq!(o, Observation::NoRecords);
    assert!(!o.is_up());
    assert_eq!(first_record(Vec::new()), Observation::NoRecords);
}

#[test]
fn report_without_header_is_down() {
    let o = observe(Ok("Disk Quotas for User de4183\n".to_string()));
    assert_eq!(o, Observation::ParseFailed(ParseError::HeaderNotFound));
    assert!(!o.is_up());
}

#[test]
fn failed_fetch_is_down() {
    let o = observe(Err(FetchError::ExitStatus(3)));
    assert_eq!(o, Observation::FetchFailed(FetchError::ExitStatus(3)));
    assert!(!o.is_up());
}

#[test]
fn fetcher_keeps_its_settings() {
    let f = SshFetcher::new("de4183".to_string(), "de4183.rsync.net".to_string(), "/key".to_string());
    assert_eq!(f.username(), "de4183");
    assert_eq!(f.host(), "de4183.rsync.net");
    assert_eq!(f.ssh_key_path(), "/key");
    assert_eq!(f.address(), "de4183.rsync.net:22");
}

#[test]
fn only_an_authenticated_session_goes_on() {
    assert_eq!(check_authenticated(true), Ok(()));
    assert_eq!(check_authenticated(false), Err(FetchError::Authentication));
}

#[test]
fn only_exit_status_zero_gives_the_output() {
    assert_eq!(check_exit_status("out".to_string(), 0), Ok("out".to_string()));
    assert_eq!(check_exit_status("out".to_string(), 1), Err(FetchError::ExitStatus(1)));
    assert_eq!(check_exit_status(String::new(), -1), Err(FetchError::ExitStatus(-1)));
}
