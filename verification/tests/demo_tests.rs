use service_framework::greeter::{check_auth, MyGreeter};
use service_framework::streaming::StreamingService;

#[test]
fn greeter_replies_with_the_name() {
    let greeter = MyGreeter::default();
    assert_eq!(greeter.say_hello("Tonic"), "Hello Tonic!");
    assert_eq!(greeter.say_hello(""), "Hello !");
}

#[test]
fn interceptor_accepts_only_the_expected_token() {
    assert!(check_auth(Some("Bearer some-secret-token")));
    assert!(!check_auth(Some("Bearer wrong")));
    assert!(!check_auth(Some("")));
    assert!(!check_auth(None));
}

#[test]
fn squares_stream_counts_up_from_zero() {
    let service = StreamingService::default();
    assert_eq!(service.squares(5), vec![0, 1, 4, 9, 16]);
    assert_eq!(service.squares(0), Vec::<i32>::new());
    assert_eq!(service.squares(-3), Vec::<i32>::new());
    let all = service.squares(46341);
    assert_eq!(all.len(), 46341);
    assert_eq!(all[46340], 46340 * 46340);
}
