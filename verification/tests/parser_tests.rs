//! Tests of the message codec: operation lookup, arity validation,
//! request encoding and decoding, response decoding.

use rubin::errors::MessageError;
use rubin::parser::Message;
use rubin::parser::Operation;
use rubin::parser::create_request;
use rubin::parser::parse_request;
use rubin::parser::parse_response;

#[test]
fn parser_create_appropriate_operation() {
    // The strict lookup: the four basic opcodes, anything else is a no-op.
    let op_codes = vec!["SET", "GET", "RM", "CLR", "SOMETHING"];
    for op in op_codes {
        let code: Operation = Operation::from_str(op);
        match op {
            "SET" => assert!(code == Operation::StringSet),
            "GET" => assert!(code == Operation::StringGet),
            "RM" => assert!(code == Operation::StringRemove),
            "CLR" => assert!(code == Operation::StringClear),
            _ => assert!(code == Operation::Noop),
        }
    }
    // The full lookup: every opcode, case folded; unknown tokens are errors.
    let op_codes = vec![
        "SET",
        "GET",
        "RM",
        "CLR",
        "NOOP",
        "INCR",
        "DECR",
        "DUMP",
        "SOMETHING",
    ];
    for op in op_codes {
        let code: Operation = Operation::from_string(op);
        match op {
            "SET" => assert!(code == Operation::StringSet),
            "GET" => assert!(code == Operation::StringGet),
            "RM" => assert!(code == Operation::StringRemove),
            "CLR" => assert!(code == Operation::StringClear),
            "INCR" => assert!(code == Operation::Incr),
            "DECR" => assert!(code == Operation::Decr),
            "NOOP" => assert!(code == Operation::Noop),
            "DUMP" => assert!(code == Operation::Dump),
            _ => assert!(code == Operation::Error),
        }
    }
}

#[test]
fn parser_validation_string_set_message() {
    let mut m = Message {
        op: Operation::StringSet,
        args: vec!["arg1".to_string(), "arg2".to_string()],
    };

    assert!(m.validate());

    m.args.pop();
    assert!(!m.validate());
}

#[test]
fn parser_validation_string_get_message() {
    let mut m = Message {
        op: Operation::StringGet,
        args: vec!["arg1".to_string()],
    };

    assert!(m.validate());

    m.args.push("arg2".to_string());
    assert!(!m.validate());
}

#[test]
fn parser_validate_string_remove_message() {
    let mut m = Message {
        op: Operation::StringRemove,
        args: vec!["arg1".to_string()],
    };

    assert!(m.validate());

    m.args.push("arg2".to_string());
    assert!(!m.validate());
}

#[test]
fn parser_validation_string_clear() {
    let m = Message {
        op: Operation::StringClear,
        args: vec![],
    };

    assert!(m.validate());
}

#[test]
fn validate_increment() {
    let m = Message {
        op: Operation::Incr,
        args: vec!["arg1".to_string()],
    };

    assert!(m.validate());
}

#[test]
fn validate_decrement() {
    let m = Message {
        op: Operation::Decr,
        args: vec!["arg1".to_string()],
    };

    assert!(m.validate());
}

#[test]
fn parser_validation_noop_message() {
    let m = Message {
        op: Operation::Noop,
        args: vec![],
    };

    assert!(m.validate());
}

#[test]
fn validation_dump_message() {
    let m = Message {
        op: Operation::Dump,
        args: vec!["/some/file/path.json".to_string()],
    };

    assert!(m.validate());
}

#[test]
fn parser_create_appropriate_request() {
    let ops = vec![Operation::StringSet, Operation::StringGet];
    for op in ops {
        let args = match op {
            Operation::StringSet => vec!["arg1".to_string(), "arg2".to_string()],
            Operation::StringGet | Operation::StringRemove => vec!["arg1".to_string()],
            _ => vec![],
        };
        let expected = format!("{}::{}", op.code(), args.join(" "));
        let request = create_request(op, args);
        assert_eq!(expected, request);
    }
}

#[test]
fn parser_parse_requests_correctly() {
    let request = "SET::arg1 arg2";
    let result = parse_request(request).unwrap();

    let expected = Message {
        op: Operation::StringSet,
        args: vec!["arg1".to_string(), "arg2".to_string()],
    };

    assert_eq!(result, expected);
}

#[test]
fn parser_detects_an_invalid_message() {
    let request = "SET::arg1";
    let result = parse_request(request).unwrap_err();
    assert_eq!(
        result,
        MessageError::InvalidMessage("message failed validation".to_string())
    );
}

#[test]
fn parser_parse_invalid_requests() {
    let request = "SGET:argumetns blahg";
    let result = parse_request(request).unwrap_err();
    assert_eq!(
        result,
        MessageError::InvalidFormat("invalid operation: SGET:argumetns blahg".to_string())
    );
}

#[test]
fn parser_parses_a_valid_response() {
    let response = "SET::OK";
    let result = parse_response(response);

    assert_eq!(&result, "OK");
}

#[test]
fn parser_parses_an_invalid_response_correctly() {
    let response = "GET:";
    let result = parse_response(response);

    assert_eq!(&result, "");
}

#[test]
fn create_appropriate_operation() {
    let op_codes = vec!["SET", "GET", "RM", "CLR", "SOMETHING"];
    for op in op_codes {
        let code: Operation = Operation::from_str(op);

        match op {
            "SET" => assert!(code == Operation::StringSet),
            "GET" => assert!(code == Operation::StringGet),
            "RM" => assert!(code == Operation::StringRemove),
            "CLR" => assert!(code == Operation::StringClear),
            _ => assert!(code == Operation::Noop),
        }
    }
}

#[test]
fn validation_string_set_message() {
    let mut m = Message {
        op: Operation::StringSet,
        args: vec!["arg1".to_string(), "arg2".to_string()],
    };

    assert!(m.validate());

    m.args.pop();
    assert!(!m.validate());
}

#[test]
fn validation_string_get_message() {
    let mut m = Message {
        op: Operation::StringGet,
        args: vec!["arg1".to_string()],
    };

    assert!(m.validate());

    m.args.push("arg2".to_string());
    assert!(!m.validate());
}

#[test]
fn validate_string_remove_message() {
    let mut m = Message {
        op: Operation::StringRemove,
        args: vec!["arg1".to_string()],
    };

    assert!(m.validate());

    m.args.push("arg2".to_string());
    assert!(!m.validate());
}

#[test]
fn validation_string_clear() {
    let m = Message {
        op: Operation::StringClear,
        args: vec![],
    };

    assert!(m.validate());
}

#[test]
fn validation_noop_message() {
    let m = Message {
        op: Operation::Noop,
        args: vec![],
    };

    assert!(m.validate());
}

#[test]
fn create_appropriate_request() {
    let ops = vec![Operation::StringSet, Operation::StringGet];
    for op in ops {
        let args = match op {
            Operation::StringSet => vec!["arg1".to_string(), "arg2".to_string()],
            Operation::StringGet | Operation::StringRemove => vec!["arg1".to_string()],
            _ => vec![],
        };
        let expected = format!("{}::{}", op.code(), args.join(" "));
        let request = create_request(op, args);
        assert_eq!(expected, request);
    }
}

#[test]
fn parse_requests_correctly() {
    let request = "SET::arg1 arg2";
    let result = parse_request(request).unwrap();

    let expected = Message {
        op: Operation::StringSet,
        args: vec!["arg1".to_string(), "arg2".to_string()],
    };

    assert_eq!(result, expected);
}

#[test]
fn detects_an_invalid_message() {
    let request = "SET::arg1";
    let result = parse_request(request).unwrap_err();
    assert!(matches!(result, MessageError::InvalidMessage(_)));
}

#[test]
fn parse_invalid_requests() {
    let request = "SGET:argumetns blahg";
    let result = parse_request(request).unwrap_err();
    assert!(matches!(result, MessageError::InvalidFormat(_)));
}

#[test]
fn parses_a_valid_response() {
    let response = "SET::OK";
    let result = parse_response(response);

    assert_eq!(&result, "OK");
}

#[test]
fn parses_an_invalid_response_correctly() {
    let response = "GET:";
    let result = parse_response(response);

    assert_eq!(&result, "");
}

#[test]
fn request_round_trip_rebuilds_the_message() {
    let args = vec!["user:1000".to_string(), "some".to_string(), "value".to_string()];
    let request = create_request(Operation::StringSet, args.clone());
    let decoded = parse_request(&request).unwrap();
    assert_eq!(decoded.op, Operation::StringSet);
    assert_eq!(decoded.args, args);

    let args = vec!["counter".to_string()];
    let request = create_request(Operation::Incr, args.clone());
    let decoded = parse_request(&request).unwrap();
    assert_eq!(decoded.op, Operation::Incr);
    assert_eq!(decoded.args, args);
}

#[test]
fn request_decoding_is_case_insensitive() {
    let decoded = parse_request("set::key value").unwrap();
    assert_eq!(decoded.op, Operation::StringSet);
    assert_eq!(decoded.args, vec!["key".to_string(), "value".to_string()]);
}

#[test]
fn response_decoding_trims_the_payload() {
    assert_eq!(parse_response("GET::value\n"), "value");
    assert_eq!(parse_response("INCR:: 7 \n"), "7");
    assert_eq!(parse_response("no delimiter here"), "");
}
