use session_engine::dap::DapState;

#[test]
fn dap_single_session_lifecycle() {
    let mut st: DapState<u8> = DapState::new();
    assert_eq!(st.dap_send("x").err(), Some("No active DAP session".to_string()));
    assert!(st.dap_connect("one".to_string(), 1).is_none());
    let (w, bytes) = st.dap_send("{\"seq\":1}").unwrap();
    assert_eq!(*w, 1);
    assert_eq!(bytes, b"{\"seq\":1}".to_vec());
    let old = st.dap_connect("two".to_string(), 2).unwrap();
    assert_eq!((old.id.as_str(), old.writer), ("one", 1));
    let gone = st.dap_disconnect().unwrap();
    assert_eq!(gone.id, "two");
    assert!(st.dap_disconnect().is_none());
    assert!(st.dap_send("x").is_err());
}
