use getblock_filter::error::{ErrorKind, Field, FilterError};
use getblock_filter::filter::Filtered;
use getblock_filter::json::{Json, Member};
use getblock_filter::proxy::{
    respond, ProxyError, Reply, UpstreamError, STATUS_OK, STATUS_SERVER_ERROR,
};

fn text(s: &str) -> Json {
    Json::Text(s.to_string())
}

fn object(members: Vec<(&str, Json)>) -> Json {
    Json::Object(
        members
            .into_iter()
            .map(|(name, value)| Member { name: name.to_string(), value })
            .collect(),
    )
}

fn numbers(values: &[u64]) -> Json {
    Json::Array(values.iter().map(|v| Json::Unsigned(*v)).collect())
}

fn record(pre: &[u64], post: &[u64]) -> Json {
    object(vec![(
        "meta",
        object(vec![
            ("preBalances", numbers(pre)),
            ("postBalances", numbers(post)),
            ("preTokenBalances", Json::Array(vec![])),
            ("postTokenBalances", Json::Array(vec![])),
        ]),
    )])
}

fn block(transactions: Vec<Json>) -> Json {
    object(vec![
        ("jsonrpc", text("2.0")),
        (
            "result",
            object(vec![
                ("blockHeight", Json::Unsigned(10)),
                ("blockTime", Json::Unsigned(1700000000)),
                ("blockhash", text("hash")),
                ("parentSlot", Json::Unsigned(9)),
                ("previousBlockhash", text("previous")),
                ("transactions", Json::Array(transactions)),
            ]),
        ),
        ("id", text("req-1")),
    ])
}

#[test]
fn statuses_are_the_usual_ones() {
    assert_eq!(STATUS_OK, 200);
    assert_eq!(STATUS_SERVER_ERROR, 500);
}

#[test]
fn respond_answers_with_the_filtered_block() {
    let upstream = block(vec![record(&[1], &[1]), record(&[1], &[2])]);
    let reply = respond(Ok(upstream));
    assert_eq!(reply.status(), 200);
    let response = object(vec![
        ("id", text("req-1")),
        ("jsonrpc", text("2.0")),
        (
            "result",
            object(vec![
                ("blockHeight", Json::Unsigned(10)),
                ("blockTime", Json::Unsigned(1700000000)),
                ("blockhash", text("hash")),
                ("parentSlot", Json::Unsigned(9)),
                ("previousBlockhash", text("previous")),
                ("transactions", Json::Array(vec![record(&[1], &[2])])),
            ]),
        ),
    ]);
    assert_eq!(reply, Reply::Filtered(Filtered { response, considered: 2, retained: 1 }));
}

#[test]
fn respond_fails_when_upstream_is_unreachable() {
    let reply = respond(Err(UpstreamError::Unreachable));
    assert_eq!(reply.status(), 500);
    assert_eq!(reply, Reply::Failed(ProxyError::Upstream(UpstreamError::Unreachable)));
}

#[test]
fn respond_fails_when_upstream_is_not_json() {
    let reply = respond(Err(UpstreamError::NotJson));
    assert_eq!(reply.status(), 500);
    assert_eq!(reply, Reply::Failed(ProxyError::Upstream(UpstreamError::NotJson)));
}

#[test]
fn respond_fails_when_result_is_absent() {
    let upstream = object(vec![
        ("jsonrpc", text("2.0")),
        ("error", object(vec![("code", Json::Negative(-32009)), ("message", text("skipped"))])),
        ("id", Json::Unsigned(1)),
    ]);
    let reply = respond(Ok(upstream));
    assert_eq!(reply, Reply::Failed(ProxyError::Filter(FilterError::MissingResult)));
    assert_eq!(reply.status(), 500);
}

#[test]
fn respond_fails_as_a_whole_when_a_transaction_lacks_pre_balances() {
    let broken = object(vec![("meta", object(vec![("postBalances", numbers(&[5]))]))]);
    let upstream = block(vec![record(&[1], &[2]), broken]);
    let reply = respond(Ok(upstream));
    assert_eq!(
        reply,
        Reply::Failed(ProxyError::Filter(FilterError::MissingField(Field::PreBalances)))
    );
    assert_eq!(reply.status(), 500);
}

#[test]
fn every_failure_has_the_same_status() {
    let replies = [
        respond(Err(UpstreamError::Unreachable)),
        respond(Err(UpstreamError::NotJson)),
        respond(Ok(Json::Null)),
        respond(Ok(object(vec![("result", object(vec![]))]))),
        respond(Ok(block(vec![Json::Null]))),
        respond(Ok(block(vec![record(&[1], &[])]))),
    ];
    for reply in &replies {
        assert_eq!(reply.status(), STATUS_SERVER_ERROR);
    }
}

#[test]
fn failures_keep_their_kind() {
    assert_eq!(ProxyError::Upstream(UpstreamError::Unreachable).kind(), ErrorKind::UpstreamError);
    assert_eq!(ProxyError::Upstream(UpstreamError::NotJson).kind(), ErrorKind::UpstreamError);
    assert_eq!(
        ProxyError::Filter(FilterError::MissingTransactions).kind(),
        ErrorKind::MalformedResponse
    );
    assert_eq!(
        ProxyError::Filter(FilterError::ParseError).kind(),
        ErrorKind::TransactionShapeError
    );
}
