use http::HttpServer;

#[test]
fn lib_it_works() {
    let _server = HttpServer::new();
}
