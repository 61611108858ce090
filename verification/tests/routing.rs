use overnvr::oid::ObjectId;
use overnvr::routes::{plain_route, route, Access, Method, Route};

fn found(method: Method, path: &str) -> Route<String> {
    route(method, path).unwrap()
}

fn id_of(route: Route<String>) -> String {
    match route {
        Route::GetEvent(id)
        | Route::GetCamera(id)
        | Route::Export(id)
        | Route::UpdateCamera(id)
        | Route::GetRegions(id)
        | Route::UpdateRegions(id)
        | Route::GetCameraImage(id)
        | Route::UpdateAlert(id)
        | Route::DeleteAlert(id) => id,
        _ => panic!("no identifier"),
    }
}

#[test]
fn requests_for_events() {
    assert!(matches!(found(Method::Get, "/api/event"), Route::GetEvents));
    assert!(matches!(found(Method::Get, "/api/event/range"), Route::GetEventRange));
    assert!(matches!(found(Method::Get, "/api/event/previous"), Route::GetEventPrevious));
    assert!(matches!(found(Method::Get, "/api/event/next"), Route::GetEventNext));
    assert!(matches!(found(Method::Get, "/api/event/abc"), Route::GetEvent(_)));
    assert_eq!(id_of(found(Method::Get, "/api/event/abc")), "abc");
    assert!(matches!(found(Method::Get, "/api/event/thumb/a.jpg"), Route::Thumb));
    assert!(matches!(found(Method::Get, "/api/event/thumb/a/b.jpg"), Route::Thumb));
    assert!(matches!(found(Method::Head, "/api/event/thumb/a.jpg"), Route::Thumb));
    assert!(matches!(found(Method::Head, "/api/event/thumb"), Route::Thumb));
    assert!(matches!(found(Method::Get, "/api/event/thumb"), Route::GetEvent(_)));
    assert!(matches!(found(Method::Get, "/api/detections"), Route::GetDetections));
}

#[test]
fn requests_for_cameras() {
    assert!(matches!(found(Method::Get, "/api/cameras"), Route::GetCameras));
    assert!(matches!(found(Method::Get, "/api/cameras/1"), Route::GetCamera(_)));
    assert!(matches!(found(Method::Post, "/api/cameras/1"), Route::UpdateCamera(_)));
    assert!(matches!(found(Method::Get, "/api/cameras/1/export"), Route::Export(_)));
    assert!(matches!(found(Method::Get, "/api/cameras/1/regions"), Route::GetRegions(_)));
    assert!(matches!(found(Method::Post, "/api/cameras/1/regions"), Route::UpdateRegions(_)));
    assert!(matches!(found(Method::Get, "/api/cameras/1/image.jpg"), Route::GetCameraImage(_)));
    assert_eq!(id_of(found(Method::Get, "/api/cameras/77/image.jpg")), "77");
    assert_eq!(id_of(found(Method::Post, "/api/cameras/78/regions")), "78");
}

#[test]
fn requests_for_alerts() {
    assert!(matches!(found(Method::Get, "/api/alerts"), Route::GetAlerts));
    assert!(matches!(found(Method::Post, "/api/alerts"), Route::AddAlert));
    assert!(matches!(found(Method::Post, "/api/alerts/5"), Route::UpdateAlert(_)));
    assert!(matches!(found(Method::Delete, "/api/alerts/5"), Route::DeleteAlert(_)));
}

#[test]
fn requests_about_users() {
    assert!(matches!(found(Method::Get, "/api/auth"), Route::Whoami));
    assert!(matches!(found(Method::Post, "/api/auth"), Route::Login));
    assert!(matches!(found(Method::Delete, "/api/auth"), Route::Logout));
    assert!(matches!(found(Method::Post, "/api/auth_ws"), Route::AuthWs));
    assert!(matches!(found(Method::Post, "/api/users"), Route::AddUser));
    assert!(matches!(found(Method::Get, "/ws"), Route::WsIndex));
}

#[test]
fn requests_for_nothing() {
    let nothing = [
        (Method::Get, ""),
        (Method::Get, "/"),
        (Method::Get, "api/event"),
        (Method::Get, "/api"),
        (Method::Get, "/api/event/"),
        (Method::Get, "/api/cameras/1/"),
        (Method::Get, "/api/cameras//regions"),
        (Method::Get, "/api/cameras/1/other"),
        (Method::Get, "/api/cameras/1/regions/2"),
        (Method::Get, "/API/event"),
        (Method::Post, "/api/event"),
        (Method::Post, "/ws"),
        (Method::Delete, "/api/cameras/1"),
        (Method::Get, "/api/alerts/5"),
        (Method::Get, "/api/users"),
        (Method::Other, "/api/event"),
        (Method::Head, "/api/event"),
        (Method::Head, "/api/event/5"),
        (Method::Head, "/api/cameras/1/image.jpg"),
        (Method::Head, "/ws"),
        (Method::Post, "/api/event/thumb/a.jpg"),
    ];
    for (method, path) in nothing {
        assert!(route(method, path).is_none(), "{}", path);
    }
}

#[test]
fn what_requests_have_to_show() {
    assert_eq!(found(Method::Post, "/api/auth").access(), Access::Open);
    assert_eq!(found(Method::Delete, "/api/auth").access(), Access::Open);
    assert_eq!(found(Method::Get, "/api/event/thumb/a.jpg").access(), Access::Open);
    assert_eq!(found(Method::Get, "/ws").access(), Access::SocketToken);
    let guarded = [
        (Method::Get, "/api/event"),
        (Method::Get, "/api/cameras"),
        (Method::Get, "/api/cameras/1/image.jpg"),
        (Method::Post, "/api/alerts"),
        (Method::Delete, "/api/alerts/1"),
        (Method::Get, "/api/auth"),
        (Method::Post, "/api/auth_ws"),
        (Method::Post, "/api/users"),
    ];
    for (method, path) in guarded {
        assert_eq!(found(method, path).access(), Access::LoggedIn);
    }
}

const ID: &str = "00000000000000000000000a";

fn plain(method: Method, path: &str) -> Option<Route<ObjectId>> {
    plain_route(method, &path.replace("ID", ID))
}

#[test]
fn requests_to_a_server_without_accounts() {
    let id = ObjectId { high: 0, low: 10 };
    assert!(matches!(plain(Method::Get, "/ws"), Some(Route::WsIndex)));
    assert!(matches!(plain(Method::Get, "/ws/x"), Some(Route::WsIndex)));
    assert!(matches!(plain(Method::Get, "/api/detections"), Some(Route::GetDetections)));
    assert!(matches!(plain(Method::Get, "/api/detections/x"), Some(Route::GetDetections)));
    assert!(matches!(plain(Method::Get, "/api/event"), Some(Route::GetEvents)));
    assert!(matches!(plain(Method::Get, "/api/event/"), Some(Route::GetEvents)));
    assert!(matches!(plain(Method::Get, "/api/event/range"), Some(Route::GetEventRange)));
    assert!(matches!(plain(Method::Get, "/api/event/previous"), Some(Route::GetEventPrevious)));
    assert!(matches!(plain(Method::Get, "/api/event/next/x"), Some(Route::GetEventNext)));
    assert!(matches!(plain(Method::Get, "/api/event/thumb/a.jpg"), Some(Route::Thumb)));
    assert!(matches!(plain(Method::Head, "/api/event/thumb/a.jpg"), Some(Route::Thumb)));
    assert!(matches!(plain(Method::Get, "/api/event/ID"), Some(Route::GetEvent(i)) if i == id));
    assert!(matches!(plain(Method::Get, "/api/cameras"), Some(Route::GetCameras)));
    assert!(matches!(plain(Method::Get, "/api/cameras/ID"), Some(Route::GetCamera(i)) if i == id));
    assert!(
        matches!(plain(Method::Post, "/api/cameras/ID/"), Some(Route::UpdateCamera(i)) if i == id)
    );
    assert!(matches!(plain(Method::Get, "/api/cameras/ID/export/x.mkv"), Some(Route::Export(_))));
    assert!(matches!(plain(Method::Get, "/api/cameras/ID/regions"), Some(Route::GetRegions(_))));
    assert!(
        matches!(plain(Method::Post, "/api/cameras/ID/regions/"), Some(Route::UpdateRegions(_)))
    );
    assert!(
        matches!(plain(Method::Get, "/api/cameras/ID/image.jpg"), Some(Route::GetCameraImage(_)))
    );
    assert!(matches!(plain(Method::Get, "/api/alerts"), Some(Route::GetAlerts)));
    assert!(matches!(plain(Method::Post, "/api/alerts/"), Some(Route::AddAlert)));
    assert!(matches!(plain(Method::Post, "/api/alerts/ID"), Some(Route::UpdateAlert(i)) if i == id));
    assert!(
        matches!(plain(Method::Delete, "/api/alerts/ID"), Some(Route::DeleteAlert(i)) if i == id)
    );
}

#[test]
fn requests_for_nothing_to_a_server_without_accounts() {
    let nothing = [
        (Method::Get, ""),
        (Method::Get, "/"),
        (Method::Get, "/api"),
        (Method::Post, "/ws"),
        (Method::Post, "/api/detections"),
        (Method::Get, "/api/event/5"),
        (Method::Get, "/api/event//"),
        (Method::Get, "/api/event/ID/x"),
        (Method::Post, "/api/event"),
        (Method::Post, "/api/event/thumb/a.jpg"),
        (Method::Head, "/api/event/ID"),
        (Method::Delete, "/api/cameras/ID"),
        (Method::Get, "/api/cameras/5"),
        (Method::Get, "/api/cameras/ID/other"),
        (Method::Get, "/api/cameras/ID/regions/x"),
        (Method::Post, "/api/cameras/ID/export"),
        (Method::Get, "/api/alerts/ID"),
        (Method::Delete, "/api/alerts"),
        (Method::Get, "/api/auth"),
        (Method::Post, "/api/users"),
    ];
    for (method, path) in nothing {
        assert!(plain(method, path).is_none(), "{}", path);
    }
}
