//! Which request is which: methods and paths, and who may make them.

use crate::oid::{hex_of, hex_value, is_hex_digit, is_written_id, written_id_reads_back, ObjectId};
use crate::text::{joined, pieces, pieces_join_back, split, texts, texts_are_cut_one_by_one};
use vstd::prelude::*;

verus! {

/// The method of a request.
#[derive(Clone, Copy, PartialEq, Eq, Structural, Debug)]
pub enum Method {
    Get,
    Head,
    Post,
    Delete,
    Other,
}

/// What a request asks for. `T` is a part of its path that stands for an
/// identifier.
#[derive(Debug)]
pub enum Route<T> {
    GetEvents,
    GetEventRange,
    GetEventPrevious,
    GetEventNext,
    GetEvent(T),
    GetCameras,
    GetCamera(T),
    Export(T),
    UpdateCamera(T),
    GetRegions(T),
    UpdateRegions(T),
    GetCameraImage(T),
    GetDetections,
    GetAlerts,
    AddAlert,
    UpdateAlert(T),
    DeleteAlert(T),
    AuthWs,
    WsIndex,
    /// The picture of an event, kept in a file.
    Thumb,
    Whoami,
    Login,
    Logout,
    AddUser,
}

/// What a request has to show to be answered.
#[derive(Clone, Copy, PartialEq, Eq, Structural, Debug)]
pub enum Access {
    /// Nothing.
    Open,
    /// That somebody is logged in.
    LoggedIn,
    /// A token for a socket.
    SocketToken,
}

/// The route with the texts of its parts.
pub open spec fn route_text(route: Route<String>) -> Route<Seq<char>> {
    match route {
        Route::GetEvents => Route::GetEvents,
        Route::GetEventRange => Route::GetEventRange,
        Route::GetEventPrevious => Route::GetEventPrevious,
        Route::GetEventNext => Route::GetEventNext,
        Route::GetEvent(id) => Route::GetEvent(id@),
        Route::GetCameras => Route::GetCameras,
        Route::GetCamera(id) => Route::GetCamera(id@),
        Route::Export(id) => Route::Export(id@),
        Route::UpdateCamera(id) => Route::UpdateCamera(id@),
        Route::GetRegions(id) => Route::GetRegions(id@),
        Route::UpdateRegions(id) => Route::UpdateRegions(id@),
        Route::GetCameraImage(id) => Route::GetCameraImage(id@),
        Route::GetDetections => Route::GetDetections,
        Route::GetAlerts => Route::GetAlerts,
        Route::AddAlert => Route::AddAlert,
        Route::UpdateAlert(id) => Route::UpdateAlert(id@),
        Route::DeleteAlert(id) => Route::DeleteAlert(id@),
        Route::AuthWs => Route::AuthWs,
        Route::WsIndex => Route::WsIndex,
        Route::Thumb => Route::Thumb,
        Route::Whoami => Route::Whoami,
        Route::Login => Route::Login,
        Route::Logout => Route::Logout,
        Route::AddUser => Route::AddUser,
    }
}

/// The routes below `/api` with no further part.
pub open spec fn short_route(method: Method, head: Seq<char>) -> Option<Route<Seq<char>>> {
    match method {
        Method::Get => if head == "event"@ {
            Some(Route::GetEvents)
        } else if head == "cameras"@ {
            Some(Route::GetCameras)
        } else if head == "detections"@ {
            Some(Route::GetDetections)
        } else if head == "alerts"@ {
            Some(Route::GetAlerts)
        } else if head == "auth"@ {
            Some(Route::Whoami)
        } else {
            None
        },
        Method::Post => if head == "alerts"@ {
            Some(Route::AddAlert)
        } else if head == "auth_ws"@ {
            Some(Route::AuthWs)
        } else if head == "auth"@ {
            Some(Route::Login)
        } else if head == "users"@ {
            Some(Route::AddUser)
        } else {
            None
        },
        Method::Delete => if head == "auth"@ {
            Some(Route::Logout)
        } else {
            None
        },
        _ => None,
    }
}

/// The routes below `/api` with one further part, which is not empty.
pub open spec fn item_route(method: Method, head: Seq<char>, item: Seq<char>) -> Option<
    Route<Seq<char>>,
> {
    match method {
        Method::Get => if head == "event"@ {
            if item == "range"@ {
                Some(Route::GetEventRange)
            } else if item == "previous"@ {
                Some(Route::GetEventPrevious)
            } else if item == "next"@ {
                Some(Route::GetEventNext)
            } else {
                Some(Route::GetEvent(item))
            }
        } else if head == "cameras"@ {
            Some(Route::GetCamera(item))
        } else {
            None
        },
        Method::Post => if head == "cameras"@ {
            Some(Route::UpdateCamera(item))
        } else if head == "alerts"@ {
            Some(Route::UpdateAlert(item))
        } else {
            None
        },
        Method::Delete => if head == "alerts"@ {
            Some(Route::DeleteAlert(item))
        } else {
            None
        },
        _ => None,
    }
}

/// The routes below `/api` with two further parts, the first of which is not
/// empty.
pub open spec fn part_route(
    method: Method,
    head: Seq<char>,
    item: Seq<char>,
    part: Seq<char>,
) -> Option<Route<Seq<char>>> {
    match method {
        Method::Get => if head == "cameras"@ {
            if part == "export"@ {
                Some(Route::Export(item))
            } else if part == "regions"@ {
                Some(Route::GetRegions(item))
            } else if part == "image.jpg"@ {
                Some(Route::GetCameraImage(item))
            } else {
                None
            }
        } else {
            None
        },
        Method::Post => if head == "cameras"@ && part == "regions"@ {
            Some(Route::UpdateRegions(item))
        } else {
            None
        },
        _ => None,
    }
}

/// What a request with that method asks for, where `parts` are the pieces of its
/// path between slashes.
pub open spec fn route_of(method: Method, parts: Seq<Seq<char>>) -> Option<Route<Seq<char>>> {
    if parts.len() < 2 || parts[0].len() > 0 {
        None
    } else if parts.len() == 2 && parts[1] == "ws"@ && method is Get {
        Some(Route::WsIndex)
    } else if parts[1] != "api"@ {
        None
    } else if parts.len() >= 4 && parts[2] == "event"@ && parts[3] == "thumb"@ && (method is Head || (
    method is Get && parts.len() >= 5)) {
        Some(Route::Thumb)
    } else if parts.len() == 3 {
        short_route(method, parts[2])
    } else if parts.len() == 4 && parts[3].len() > 0 {
        item_route(method, parts[2], parts[3])
    } else if parts.len() == 5 && parts[3].len() > 0 {
        part_route(method, parts[2], parts[3], parts[4])
    } else {
        None
    }
}

fn reads(a: &String, b: &str) -> (r: bool)
    ensures
        r == (a@ == b@),
{
    *a == b.to_owned()
}

fn short(method: Method, head: &String) -> (r: Option<Route<String>>)
    ensures
        match r {
            Some(route) => short_route(method, head@) == Some(route_text(route)),
            None => short_route(method, head@) is None,
        },
{
    match method {
        Method::Get => {
            if reads(head, "event") {
                Some(Route::GetEvents)
            } else if reads(head, "cameras") {
                Some(Route::GetCameras)
            } else if reads(head, "detections") {
                Some(Route::GetDetections)
            } else if reads(head, "alerts") {
                Some(Route::GetAlerts)
            } else if reads(head, "auth") {
                Some(Route::Whoami)
            } else {
                None
            }
        },
        Method::Post => {
            if reads(head, "alerts") {
                Some(Route::AddAlert)
            } else if reads(head, "auth_ws") {
                Some(Route::AuthWs)
            } else if reads(head, "auth") {
                Some(Route::Login)
            } else if reads(head, "users") {
                Some(Route::AddUser)
            } else {
                None
            }
        },
        Method::Delete => {
            if reads(head, "auth") {
                Some(Route::Logout)
            } else {
                None
            }
        },
        _ => None,
    }
}

fn with_item(method: Method, head: &String, item: &String) -> (r: Option<Route<String>>)
    ensures
        match r {
            Some(route) => item_route(method, head@, item@) == Some(route_text(route)),
            None => item_route(method, head@, item@) is None,
        },
{
    match method {
        Method::Get => {
            if reads(head, "event") {
                if reads(item, "range") {
                    Some(Route::GetEventRange)
                } else if reads(item, "previous") {
                    Some(Route::GetEventPrevious)
                } else if reads(item, "next") {
                    Some(Route::GetEventNext)
                } else {
                    Some(Route::GetEvent(item.clone()))
                }
            } else if reads(head, "cameras") {
                Some(Route::GetCamera(item.clone()))
            } else {
                None
            }
        },
        Method::Post => {
            if reads(head, "cameras") {
                Some(Route::UpdateCamera(item.clone()))
            } else if reads(head, "alerts") {
                Some(Route::UpdateAlert(item.clone()))
            } else {
                None
            }
        },
        Method::Delete => {
            if reads(head, "alerts") {
                Some(Route::DeleteAlert(item.clone()))
            } else {
                None
            }
        },
        _ => None,
    }
}

fn with_part(method: Method, head: &String, item: &String, part: &String) -> (r: Option<
    Route<String>,
>)
    ensures
        match r {
            Some(route) => part_route(method, head@, item@, part@) == Some(route_text(route)),
            None => part_route(method, head@, item@, part@) is None,
        },
{
    match method {
        Method::Get => {
            if reads(head, "cameras") {
                if reads(part, "export") {
                    Some(Route::Export(item.clone()))
                } else if reads(part, "regions") {
                    Some(Route::GetRegions(item.clone()))
                } else if reads(part, "image.jpg") {
                    Some(Route::GetCameraImage(item.clone()))
                } else {
                    None
                }
            } else {
                None
            }
        },
        Method::Post => {
            if reads(head, "cameras") && reads(part, "regions") {
                Some(Route::UpdateRegions(item.clone()))
            } else {
                None
            }
        },
        _ => None,
    }
}

/// What a request asks for. A request for nothing that there is has no route. A
/// picture is there for a `HEAD` too, and so is the folder of the pictures, which
/// a `GET` takes for an event.
pub fn route(method: Method, path: &str) -> (r: Option<Route<String>>)
    ensures
        match r {
            Some(route) => route_of(method, pieces(path@, '/')) == Some(route_text(route)),
            None => route_of(method, pieces(path@, '/')) is None,
        },
{
    let parts: Vec<String> = split(path, '/');
    let ghost all = pieces(path@, '/');
    let len: usize = parts.len();
    proof {
        assert(all.len() == parts@.len());
        assert forall|i: int| 0 <= i < all.len() implies #[trigger] all[i] == parts@[i]@ by {
            assert(texts(parts@)[i] == parts@[i]@);
        }
    }
    if len < 2 || !parts[0].as_str().is_empty() {
        return None;
    }
    if len == 2 && reads(&parts[1], "ws") && method == Method::Get {
        return Some(Route::WsIndex);
    }
    if !reads(&parts[1], "api") {
        return None;
    }
    if len >= 4 && reads(&parts[2], "event") && reads(&parts[3], "thumb") && (method == Method::Head || (
    method == Method::Get && len >= 5)) {
        Some(Route::Thumb)
    } else if len == 3 {
        short(method, &parts[2])
    } else if len == 4 && !parts[3].as_str().is_empty() {
        with_item(method, &parts[2], &parts[3])
    } else if len == 5 && !parts[3].as_str().is_empty() {
        with_part(method, &parts[2], &parts[3], &parts[4])
    } else {
        None
    }
}

impl<T> Route<T> {
    /// Whether the request does without a login.
    pub open spec fn is_open(self) -> bool {
        self is Login || self is Logout || self is Thumb
    }

    /// What the request has to show.
    pub fn access(&self) -> (r: Access)
        ensures
            r is Open <==> self.is_open(),
            r is SocketToken <==> self is WsIndex,
    {
        match self {
            Route::Login => Access::Open,
            Route::Logout => Access::Open,
            Route::Thumb => Access::Open,
            Route::WsIndex => Access::SocketToken,
            _ => Access::LoggedIn,
        }
    }
}

/// Nothing is changed without a login: but for logging in and out, every request
/// that is neither a `GET` nor a `HEAD` has to show one.
pub proof fn changes_need_login(method: Method, parts: Seq<Seq<char>>)
    requires
        !(method is Get || method is Head),
        route_of(method, parts) is Some,
    ensures
        !route_of(method, parts)->0.is_open() || route_of(method, parts)->0 is Login || route_of(
            method,
            parts,
        )->0 is Logout,
        !(route_of(method, parts)->0 is WsIndex),
{
}

/// A `HEAD` asks for pictures and nothing else.
pub proof fn head_is_for_pictures(parts: Seq<Seq<char>>)
    ensures
        route_of(Method::Head, parts) matches Some(route) ==> route is Thumb,
{
}

/// The paths of the lists of the neighbours of a time are not taken for events.
pub proof fn neighbours_are_no_events(item: Seq<char>)
    requires
        item == "range"@ || item == "previous"@ || item == "next"@,
    ensures
        !(item_route(Method::Get, "event"@, item)->0 is GetEvent),
{
}

/// The piece of a path at a place. Past the end it is empty.
pub open spec fn piece_at(parts: Seq<Seq<char>>, k: int) -> Seq<char> {
    if 0 <= k < parts.len() {
        parts[k]
    } else {
        Seq::empty()
    }
}

/// Whether a path is over before a place, but perhaps for a slash at its end.
pub open spec fn ends_at(parts: Seq<Seq<char>>, k: int) -> bool {
    parts.len() <= k || (parts.len() == k + 1 && parts[k].len() == 0)
}

/// The route with the numbers of its identifiers.
pub open spec fn route_number(route: Route<ObjectId>) -> Route<int> {
    match route {
        Route::GetEvents => Route::GetEvents,
        Route::GetEventRange => Route::GetEventRange,
        Route::GetEventPrevious => Route::GetEventPrevious,
        Route::GetEventNext => Route::GetEventNext,
        Route::GetEvent(id) => Route::GetEvent(id@),
        Route::GetCameras => Route::GetCameras,
        Route::GetCamera(id) => Route::GetCamera(id@),
        Route::Export(id) => Route::Export(id@),
        Route::UpdateCamera(id) => Route::UpdateCamera(id@),
        Route::GetRegions(id) => Route::GetRegions(id@),
        Route::UpdateRegions(id) => Route::UpdateRegions(id@),
        Route::GetCameraImage(id) => Route::GetCameraImage(id@),
        Route::GetDetections => Route::GetDetections,
        Route::GetAlerts => Route::GetAlerts,
        Route::AddAlert => Route::AddAlert,
        Route::UpdateAlert(id) => Route::UpdateAlert(id@),
        Route::DeleteAlert(id) => Route::DeleteAlert(id@),
        Route::AuthWs => Route::AuthWs,
        Route::WsIndex => Route::WsIndex,
        Route::Thumb => Route::Thumb,
        Route::Whoami => Route::Whoami,
        Route::Login => Route::Login,
        Route::Logout => Route::Logout,
        Route::AddUser => Route::AddUser,
    }
}

/// The routes of cameras on a server without accounts.
pub open spec fn plain_camera_route(method: Method, parts: Seq<Seq<char>>) -> Option<Route<int>> {
    let id = hex_value(piece_at(parts, 3));
    let part = piece_at(parts, 4);
    if ends_at(parts, 3) {
        if method is Get {
            Some(Route::GetCameras)
        } else {
            None
        }
    } else if !is_written_id(piece_at(parts, 3)) {
        None
    } else if ends_at(parts, 4) {
        match method {
            Method::Get => Some(Route::GetCamera(id)),
            Method::Post => Some(Route::UpdateCamera(id)),
            _ => None,
        }
    } else if method is Get && part == "export"@ {
        Some(Route::Export(id))
    } else if !ends_at(parts, 5) {
        None
    } else if method is Get && part == "image.jpg"@ {
        Some(Route::GetCameraImage(id))
    } else if method is Get && part == "regions"@ {
        Some(Route::GetRegions(id))
    } else if method is Post && part == "regions"@ {
        Some(Route::UpdateRegions(id))
    } else {
        None
    }
}

/// The routes of events on a server without accounts.
pub open spec fn plain_event_route(method: Method, parts: Seq<Seq<char>>) -> Option<Route<int>> {
    let item = piece_at(parts, 3);
    if method is Head {
        if item == "thumb"@ {
            Some(Route::Thumb)
        } else {
            None
        }
    } else if !(method is Get) {
        None
    } else if ends_at(parts, 3) {
        Some(Route::GetEvents)
    } else if item == "range"@ {
        Some(Route::GetEventRange)
    } else if item == "previous"@ {
        Some(Route::GetEventPrevious)
    } else if item == "next"@ {
        Some(Route::GetEventNext)
    } else if item == "thumb"@ {
        Some(Route::Thumb)
    } else if is_written_id(item) && ends_at(parts, 4) {
        Some(Route::GetEvent(hex_value(item)))
    } else {
        None
    }
}

/// The routes of alerts on a server without accounts.
pub open spec fn plain_alert_route(method: Method, parts: Seq<Seq<char>>) -> Option<Route<int>> {
    let id = hex_value(piece_at(parts, 3));
    if ends_at(parts, 3) {
        match method {
            Method::Get => Some(Route::GetAlerts),
            Method::Post => Some(Route::AddAlert),
            _ => None,
        }
    } else if is_written_id(piece_at(parts, 3)) && ends_at(parts, 4) {
        match method {
            Method::Post => Some(Route::UpdateAlert(id)),
            Method::Delete => Some(Route::DeleteAlert(id)),
            _ => None,
        }
    } else {
        None
    }
}

/// What a request with that method asks of a server without accounts, where
/// `parts` are the pieces of its path between slashes. Where nothing more of a
/// path is looked at, it may go on.
pub open spec fn plain_route_of(method: Method, parts: Seq<Seq<char>>) -> Option<Route<int>> {
    if parts.len() < 2 || parts[0].len() > 0 {
        None
    } else if parts[1] == "ws"@ && method is Get {
        Some(Route::WsIndex)
    } else if parts[1] != "api"@ {
        None
    } else if piece_at(parts, 2) == "detections"@ && method is Get {
        Some(Route::GetDetections)
    } else if piece_at(parts, 2) == "cameras"@ {
        plain_camera_route(method, parts)
    } else if piece_at(parts, 2) == "event"@ {
        plain_event_route(method, parts)
    } else if piece_at(parts, 2) == "alerts"@ {
        plain_alert_route(method, parts)
    } else {
        None
    }
}

fn reads_at(parts: &Vec<String>, k: usize, text: &str) -> (r: bool)
    requires
        text@.len() > 0,
    ensures
        r == (piece_at(texts(parts@), k as int) == text@),
{
    k < parts.len() && reads(&parts[k], text)
}

fn is_over(parts: &Vec<String>, k: usize) -> (r: bool)
    ensures
        r == ends_at(texts(parts@), k as int),
{
    parts.len() <= k || (parts.len() - 1 == k && parts[k].as_str().is_empty())
}

fn id_at(parts: &Vec<String>, k: usize) -> (r: Option<ObjectId>)
    ensures
        r is Some <==> is_written_id(piece_at(texts(parts@), k as int)),
        r matches Some(id) ==> id@ == hex_value(piece_at(texts(parts@), k as int)),
{
    if k < parts.len() {
        ObjectId::from_str(parts[k].as_str())
    } else {
        None
    }
}

fn plain_camera(method: Method, parts: &Vec<String>) -> (r: Option<Route<ObjectId>>)
    ensures
        match r {
            Some(route) => plain_camera_route(method, texts(parts@)) == Some(route_number(route)),
            None => plain_camera_route(method, texts(parts@)) is None,
        },
{
    proof {
        reveal_strlit("export");
        reveal_strlit("image.jpg");
        reveal_strlit("regions");
    }
    if is_over(parts, 3) {
        return if method == Method::Get {
            Some(Route::GetCameras)
        } else {
            None
        };
    }
    match id_at(parts, 3) {
        None => None,
        Some(id) => {
            if is_over(parts, 4) {
                match method {
                    Method::Get => Some(Route::GetCamera(id)),
                    Method::Post => Some(Route::UpdateCamera(id)),
                    _ => None,
                }
            } else if method == Method::Get && reads_at(parts, 4, "export") {
                Some(Route::Export(id))
            } else if !is_over(parts, 5) {
                None
            } else if method == Method::Get && reads_at(parts, 4, "image.jpg") {
                Some(Route::GetCameraImage(id))
            } else if method == Method::Get && reads_at(parts, 4, "regions") {
                Some(Route::GetRegions(id))
            } else if method == Method::Post && reads_at(parts, 4, "regions") {
                Some(Route::UpdateRegions(id))
            } else {
                None
            }
        },
    }
}

fn plain_event(method: Method, parts: &Vec<String>) -> (r: Option<Route<ObjectId>>)
    ensures
        match r {
            Some(route) => plain_event_route(method, texts(parts@)) == Some(route_number(route)),
            None => plain_event_route(method, texts(parts@)) is None,
        },
{
    proof {
        reveal_strlit("thumb");
        reveal_strlit("range");
        reveal_strlit("previous");
        reveal_strlit("next");
    }
    if method == Method::Head {
        if reads_at(parts, 3, "thumb") {
            Some(Route::Thumb)
        } else {
            None
        }
    } else if method != Method::Get {
        None
    } else if is_over(parts, 3) {
        Some(Route::GetEvents)
    } else if reads_at(parts, 3, "range") {
        Some(Route::GetEventRange)
    } else if reads_at(parts, 3, "previous") {
        Some(Route::GetEventPrevious)
    } else if reads_at(parts, 3, "next") {
        Some(Route::GetEventNext)
    } else if reads_at(parts, 3, "thumb") {
        Some(Route::Thumb)
    } else {
        match id_at(parts, 3) {
            Some(id) => if is_over(parts, 4) {
                Some(Route::GetEvent(id))
            } else {
                None
            },
            None => None,
        }
    }
}

fn plain_alert(method: Method, parts: &Vec<String>) -> (r: Option<Route<ObjectId>>)
    ensures
        match r {
            Some(route) => plain_alert_route(method, texts(parts@)) == Some(route_number(route)),
            None => plain_alert_route(method, texts(parts@)) is None,
        },
{
    if is_over(parts, 3) {
        return match method {
            Method::Get => Some(Route::GetAlerts),
            Method::Post => Some(Route::AddAlert),
            _ => None,
        };
    }
    match id_at(parts, 3) {
        Some(id) => if is_over(parts, 4) {
            match method {
                Method::Post => Some(Route::UpdateAlert(id)),
                Method::Delete => Some(Route::DeleteAlert(id)),
                _ => None,
            }
        } else {
            None
        },
        None => None,
    }
}

/// What a request asks of a server without accounts. A socket is opened only
/// where the request asks for it in its headers too.
pub fn plain_route(method: Method, path: &str) -> (r: Option<Route<ObjectId>>)
    ensures
        match r {
            Some(route) => plain_route_of(method, pieces(path@, '/')) == Some(route_number(route)),
            None => plain_route_of(method, pieces(path@, '/')) is None,
        },
{
    let parts: Vec<String> = split(path, '/');
    proof {
        assert(texts(parts@) == pieces(path@, '/'));
        reveal_strlit("detections");
        reveal_strlit("cameras");
        reveal_strlit("event");
        reveal_strlit("alerts");
    }
    if parts.len() < 2 || !parts[0].as_str().is_empty() {
        None
    } else if reads(&parts[1], "ws") && method == Method::Get {
        Some(Route::WsIndex)
    } else if !reads(&parts[1], "api") {
        None
    } else if reads_at(&parts, 2, "detections") && method == Method::Get {
        Some(Route::GetDetections)
    } else if reads_at(&parts, 2, "cameras") {
        plain_camera(method, &parts)
    } else if reads_at(&parts, 2, "event") {
        plain_event(method, &parts)
    } else if reads_at(&parts, 2, "alerts") {
        plain_alert(method, &parts)
    } else {
        None
    }
}

/// A server without accounts knows nobody, so nothing of accounts is asked of it.
pub proof fn plain_routes_have_no_accounts(method: Method, parts: Seq<Seq<char>>)
    ensures
        plain_route_of(method, parts) matches Some(route) ==> !(route is Login || route is Logout
            || route is Whoami || route is AddUser || route is AuthWs),
{
}

proof fn lemma_words()
    ensures
        !"api"@.contains('/'),
        !"ws"@.contains('/'),
        !"event"@.contains('/'),
        !"cameras"@.contains('/'),
        !"detections"@.contains('/'),
        !"alerts"@.contains('/'),
        !"auth"@.contains('/'),
        !"auth_ws"@.contains('/'),
        !"users"@.contains('/'),
        !"range"@.contains('/'),
        !"previous"@.contains('/'),
        !"next"@.contains('/'),
        !"thumb"@.contains('/'),
        !"export"@.contains('/'),
        !"regions"@.contains('/'),
        !"image.jpg"@.contains('/'),
        "api"@.len() == 3,
        "ws"@.len() == 2,
        "event"@.len() == 5 && "event"@[0] == 'e',
        "cameras"@.len() == 7 && "cameras"@[0] == 'c',
        "detections"@.len() == 10,
        "alerts"@.len() == 6 && "alerts"@[0] == 'a' && "alerts"@[1] == 'l',
        "auth"@.len() == 4 && "auth"@[0] == 'a',
        "auth_ws"@.len() == 7 && "auth_ws"@[0] == 'a',
        "users"@.len() == 5 && "users"@[0] == 'u',
        "range"@.len() == 5 && "range"@[0] == 'r',
        "previous"@.len() == 8,
        "next"@.len() == 4,
        "thumb"@.len() == 5 && "thumb"@[0] == 't',
        "export"@.len() == 6,
        "regions"@.len() == 7,
        "image.jpg"@.len() == 9,
{
    reveal_strlit("api");
    reveal_strlit("ws");
    reveal_strlit("event");
    reveal_strlit("cameras");
    reveal_strlit("detections");
    reveal_strlit("alerts");
    reveal_strlit("auth");
    reveal_strlit("auth_ws");
    reveal_strlit("users");
    reveal_strlit("range");
    reveal_strlit("previous");
    reveal_strlit("next");
    reveal_strlit("thumb");
    reveal_strlit("export");
    reveal_strlit("regions");
    reveal_strlit("image.jpg");
}

proof fn lemma_cut_path(path: Seq<char>, part: Seq<char>)
    requires
        !part.contains('/'),
    ensures
        pieces(path.push('/') + part, '/') == pieces(path, '/').push(part),
{
    texts_are_cut_one_by_one(path, part, '/');
    texts_are_cut_one_by_one(part, part, '/');
    assert(pieces(path, '/') + seq![part] == pieces(path, '/').push(part));
}

proof fn lemma_cut_short(head: Seq<char>)
    requires
        !head.contains('/'),
    ensures
        pieces("/api/"@ + head, '/') == seq![Seq::<char>::empty(), "api"@, head],
{
    lemma_words();
    reveal_strlit("/api/");
    reveal_strlit("api");
    let none = Seq::<char>::empty();
    texts_are_cut_one_by_one(none, none, '/');
    let root = none.push('/') + "api"@;
    lemma_cut_path(none, "api"@);
    lemma_cut_path(root, head);
    assert(root.push('/') + head == "/api/"@ + head);
    assert(seq![none].push("api"@).push(head) == seq![none, "api"@, head]);
}

proof fn lemma_cut_item(head: Seq<char>, item: Seq<char>)
    requires
        !head.contains('/'),
        !item.contains('/'),
    ensures
        pieces(("/api/"@ + head).push('/') + item, '/') == seq![
            Seq::<char>::empty(),
            "api"@,
            head,
            item,
        ],
{
    lemma_cut_short(head);
    lemma_cut_path("/api/"@ + head, item);
    assert(seq![Seq::<char>::empty(), "api"@, head].push(item) == seq![
        Seq::<char>::empty(),
        "api"@,
        head,
        item,
    ]);
}

proof fn lemma_cut_part(head: Seq<char>, item: Seq<char>, part: Seq<char>)
    requires
        !head.contains('/'),
        !item.contains('/'),
        !part.contains('/'),
    ensures
        pieces((("/api/"@ + head).push('/') + item).push('/') + part, '/') == seq![
            Seq::<char>::empty(),
            "api"@,
            head,
            item,
            part,
        ],
{
    lemma_cut_item(head, item);
    lemma_cut_path(("/api/"@ + head).push('/') + item, part);
    assert(seq![Seq::<char>::empty(), "api"@, head, item].push(part) == seq![
        Seq::<char>::empty(),
        "api"@,
        head,
        item,
        part,
    ]);
}

/// Alerts are changed and deleted under their identifier, whatever it is: a `POST` and
/// a `DELETE` of the path of the alerts with a slash and the identifier behind it.
pub proof fn alerts_are_found_by_path(id: Seq<char>)
    requires
        id.len() > 0,
        !id.contains('/'),
    ensures
        route_of(Method::Post, pieces("/api/alerts/"@ + id, '/')) == Some(Route::UpdateAlert(id)),
        route_of(Method::Delete, pieces("/api/alerts/"@ + id, '/')) == Some(Route::DeleteAlert(id)),
{
    lemma_words();
    reveal_strlit("/api/");
    reveal_strlit("alerts");
    reveal_strlit("/api/alerts/");
    lemma_cut_item("alerts"@, id);
    assert(("/api/"@ + "alerts"@).push('/') + id == "/api/alerts/"@ + id);
}

/// Cameras, their regions, their picture and what they recorded are found under the
/// identifier of the camera, whatever it is.
pub proof fn cameras_are_found_by_path(id: Seq<char>)
    requires
        id.len() > 0,
        !id.contains('/'),
    ensures
        route_of(Method::Get, pieces("/api/cameras/"@ + id, '/')) == Some(Route::GetCamera(id)),
        route_of(Method::Post, pieces("/api/cameras/"@ + id, '/')) == Some(Route::UpdateCamera(id)),
        route_of(Method::Get, pieces("/api/cameras/"@ + id + "/export"@, '/')) == Some(
            Route::Export(id),
        ),
        route_of(Method::Get, pieces("/api/cameras/"@ + id + "/regions"@, '/')) == Some(
            Route::GetRegions(id),
        ),
        route_of(Method::Post, pieces("/api/cameras/"@ + id + "/regions"@, '/')) == Some(
            Route::UpdateRegions(id),
        ),
        route_of(Method::Get, pieces("/api/cameras/"@ + id + "/image.jpg"@, '/')) == Some(
            Route::GetCameraImage(id),
        ),
{
    lemma_words();
    reveal_strlit("/api/");
    reveal_strlit("cameras");
    reveal_strlit("/api/cameras/");
    reveal_strlit("export");
    reveal_strlit("/export");
    reveal_strlit("regions");
    reveal_strlit("/regions");
    reveal_strlit("image.jpg");
    reveal_strlit("/image.jpg");
    let camera = ("/api/"@ + "cameras"@).push('/') + id;
    lemma_cut_item("cameras"@, id);
    assert(camera == "/api/cameras/"@ + id);
    lemma_cut_part("cameras"@, id, "export"@);
    assert(camera.push('/') + "export"@ == "/api/cameras/"@ + id + "/export"@);
    lemma_cut_part("cameras"@, id, "regions"@);
    assert(camera.push('/') + "regions"@ == "/api/cameras/"@ + id + "/regions"@);
    lemma_cut_part("cameras"@, id, "image.jpg"@);
    assert(camera.push('/') + "image.jpg"@ == "/api/cameras/"@ + id + "/image.jpg"@);
}

/// An event is found under its identifier, whatever it is, but for the three words
/// that stand for ranges and jumps. Below the folder of the pictures everything is one,
/// however deep.
pub proof fn events_are_found_by_path(id: Seq<char>, rest: Seq<char>)
    requires
        id.len() > 0,
        !id.contains('/'),
        id != "range"@,
        id != "previous"@,
        id != "next"@,
    ensures
        route_of(Method::Get, pieces("/api/event/"@ + id, '/')) == Some(Route::GetEvent(id)),
        route_of(Method::Get, pieces("/api/event/range"@, '/')) == Some(
            Route::<Seq<char>>::GetEventRange,
        ),
        route_of(Method::Get, pieces("/api/event/previous"@, '/')) == Some(
            Route::<Seq<char>>::GetEventPrevious,
        ),
        route_of(Method::Get, pieces("/api/event/next"@, '/')) == Some(
            Route::<Seq<char>>::GetEventNext,
        ),
        route_of(Method::Get, pieces("/api/event/thumb/"@ + rest, '/')) == Some(
            Route::<Seq<char>>::Thumb,
        ),
        route_of(Method::Head, pieces("/api/event/thumb/"@ + rest, '/')) == Some(
            Route::<Seq<char>>::Thumb,
        ),
        route_of(Method::Head, pieces("/api/event/thumb"@, '/')) == Some(Route::<Seq<char>>::Thumb),
{
    lemma_words();
    reveal_strlit("/api/");
    reveal_strlit("event");
    reveal_strlit("range");
    reveal_strlit("previous");
    reveal_strlit("next");
    reveal_strlit("thumb");
    reveal_strlit("/api/event/");
    reveal_strlit("/api/event/range");
    reveal_strlit("/api/event/previous");
    reveal_strlit("/api/event/next");
    reveal_strlit("/api/event/thumb");
    reveal_strlit("/api/event/thumb/");
    let base = ("/api/"@ + "event"@).push('/');
    lemma_cut_item("event"@, id);
    assert(base + id == "/api/event/"@ + id);
    lemma_cut_item("event"@, "range"@);
    assert(base + "range"@ == "/api/event/range"@);
    lemma_cut_item("event"@, "previous"@);
    assert(base + "previous"@ == "/api/event/previous"@);
    lemma_cut_item("event"@, "next"@);
    assert(base + "next"@ == "/api/event/next"@);
    lemma_cut_item("event"@, "thumb"@);
    assert(base + "thumb"@ == "/api/event/thumb"@);
    texts_are_cut_one_by_one("/api/event/thumb"@, rest, '/');
    pieces_join_back(rest, '/');
    assert("/api/event/thumb"@.push('/') + rest == "/api/event/thumb/"@ + rest);
}

/// The paths that take no identifier.
pub proof fn other_requests_are_found_by_path()
    ensures
        route_of(Method::Get, pieces("/api/event"@, '/')) == Some(Route::<Seq<char>>::GetEvents),
        route_of(Method::Get, pieces("/api/cameras"@, '/')) == Some(Route::<Seq<char>>::GetCameras),
        route_of(Method::Get, pieces("/api/detections"@, '/')) == Some(
            Route::<Seq<char>>::GetDetections,
        ),
        route_of(Method::Get, pieces("/api/alerts"@, '/')) == Some(Route::<Seq<char>>::GetAlerts),
        route_of(Method::Post, pieces("/api/alerts"@, '/')) == Some(Route::<Seq<char>>::AddAlert),
        route_of(Method::Get, pieces("/api/auth"@, '/')) == Some(Route::<Seq<char>>::Whoami),
        route_of(Method::Post, pieces("/api/auth"@, '/')) == Some(Route::<Seq<char>>::Login),
        route_of(Method::Delete, pieces("/api/auth"@, '/')) == Some(Route::<Seq<char>>::Logout),
        route_of(Method::Post, pieces("/api/auth_ws"@, '/')) == Some(Route::<Seq<char>>::AuthWs),
        route_of(Method::Post, pieces("/api/users"@, '/')) == Some(Route::<Seq<char>>::AddUser),
        route_of(Method::Get, pieces("/ws"@, '/')) == Some(Route::<Seq<char>>::WsIndex),
{
    lemma_words();
    reveal_strlit("/api/");
    reveal_strlit("event");
    reveal_strlit("cameras");
    reveal_strlit("detections");
    reveal_strlit("alerts");
    reveal_strlit("auth");
    reveal_strlit("auth_ws");
    reveal_strlit("users");
    reveal_strlit("ws");
    reveal_strlit("/api/event");
    reveal_strlit("/api/cameras");
    reveal_strlit("/api/detections");
    reveal_strlit("/api/alerts");
    reveal_strlit("/api/auth");
    reveal_strlit("/api/auth_ws");
    reveal_strlit("/api/users");
    reveal_strlit("/ws");
    lemma_cut_short("event"@);
    assert("/api/"@ + "event"@ == "/api/event"@);
    lemma_cut_short("cameras"@);
    assert("/api/"@ + "cameras"@ == "/api/cameras"@);
    lemma_cut_short("detections"@);
    assert("/api/"@ + "detections"@ == "/api/detections"@);
    lemma_cut_short("alerts"@);
    assert("/api/"@ + "alerts"@ == "/api/alerts"@);
    lemma_cut_short("auth"@);
    assert("/api/"@ + "auth"@ == "/api/auth"@);
    lemma_cut_short("auth_ws"@);
    assert("/api/"@ + "auth_ws"@ == "/api/auth_ws"@);
    lemma_cut_short("users"@);
    assert("/api/"@ + "users"@ == "/api/users"@);
    let none = Seq::<char>::empty();
    texts_are_cut_one_by_one(none, none, '/');
    lemma_cut_path(none, "ws"@);
    assert(none.push('/') + "ws"@ == "/ws"@);
    assert(seq![none].push("ws"@) == seq![none, "ws"@]);
}

proof fn lemma_joined(parts: Seq<Seq<char>>, n: int)
    requires
        1 <= n < parts.len(),
    ensures
        joined(parts, '/') == joined(parts.take(n), '/').push('/') + joined(parts.skip(n), '/'),
    decreases parts.len(),
{
    let rest = parts.drop_last();
    if n == parts.len() - 1 {
        assert(parts.take(n) == rest);
        assert(parts.skip(n) == seq![parts.last()]);
    } else {
        lemma_joined(rest, n);
        assert(rest.take(n) == parts.take(n));
        assert(rest.skip(n) == parts.skip(n).drop_last());
        assert(parts.skip(n).last() == parts.last());
        assert(joined(parts, '/') == joined(parts.take(n), '/').push('/') + joined(
            parts.skip(n),
            '/',
        ));
    }
}

proof fn lemma_joined_few(parts: Seq<Seq<char>>)
    ensures
        parts.len() == 1 ==> joined(parts, '/') == parts[0],
        parts.len() == 2 ==> joined(parts, '/') == parts[0].push('/') + parts[1],
        parts.len() == 3 ==> joined(parts, '/') == (parts[0].push('/') + parts[1]).push('/')
            + parts[2],
        parts.len() == 4 ==> joined(parts, '/') == ((parts[0].push('/') + parts[1]).push('/')
            + parts[2]).push('/') + parts[3],
        parts.len() == 5 ==> joined(parts, '/') == (((parts[0].push('/') + parts[1]).push('/')
            + parts[2]).push('/') + parts[3]).push('/') + parts[4],
{
    reveal_with_fuel(joined, 6);
    if 2 <= parts.len() {
        assert(parts.drop_last().len() == 1 ==> parts.drop_last()[0] == parts[0]);
    }
}

/// A request is for what its path says: a route that takes an identifier is given only
/// for the method and the path that belong to it, with that identifier in it, and a
/// route that takes none only for its method and its path.
pub proof fn routes_lead_back_to_paths(method: Method, path: Seq<char>)
    ensures
        route_of(method, pieces(path, '/')) matches Some(route) ==> match route {
            Route::GetEvents => method is Get && path == "/api/event"@,
            Route::GetEventRange => method is Get && path == "/api/event/range"@,
            Route::GetEventPrevious => method is Get && path == "/api/event/previous"@,
            Route::GetEventNext => method is Get && path == "/api/event/next"@,
            Route::GetEvent(id) => method is Get && path == "/api/event/"@ + id && is_item(id),
            Route::GetCameras => method is Get && path == "/api/cameras"@,
            Route::GetCamera(id) => method is Get && path == "/api/cameras/"@ + id && is_item(id),
            Route::Export(id) => method is Get && path == "/api/cameras/"@ + id + "/export"@
                && is_item(id),
            Route::UpdateCamera(id) => method is Post && path == "/api/cameras/"@ + id && is_item(
                id,
            ),
            Route::GetRegions(id) => method is Get && path == "/api/cameras/"@ + id + "/regions"@
                && is_item(id),
            Route::UpdateRegions(id) => method is Post && path == "/api/cameras/"@ + id
                + "/regions"@ && is_item(id),
            Route::GetCameraImage(id) => method is Get && path == "/api/cameras/"@ + id
                + "/image.jpg"@ && is_item(id),
            Route::GetDetections => method is Get && path == "/api/detections"@,
            Route::GetAlerts => method is Get && path == "/api/alerts"@,
            Route::AddAlert => method is Post && path == "/api/alerts"@,
            Route::UpdateAlert(id) => method is Post && path == "/api/alerts/"@ + id && is_item(id),
            Route::DeleteAlert(id) => method is Delete && path == "/api/alerts/"@ + id && is_item(
                id,
            ),
            Route::AuthWs => method is Post && path == "/api/auth_ws"@,
            Route::WsIndex => method is Get && path == "/ws"@,
            Route::Thumb => (method is Head && path == "/api/event/thumb"@) || ((method is Get
                || method is Head) && exists|rest: Seq<char>|
                path == #[trigger] ("/api/event/thumb/"@ + rest)),
            Route::Whoami => method is Get && path == "/api/auth"@,
            Route::Login => method is Post && path == "/api/auth"@,
            Route::Logout => method is Delete && path == "/api/auth"@,
            Route::AddUser => method is Post && path == "/api/users"@,
        },
{
    let parts = pieces(path, '/');
    pieces_join_back(path, '/');
    lemma_words();
    lemma_joined_few(parts);
    reveal_strlit("api");
    reveal_strlit("ws");
    reveal_strlit("event");
    reveal_strlit("cameras");
    reveal_strlit("detections");
    reveal_strlit("alerts");
    reveal_strlit("auth");
    reveal_strlit("auth_ws");
    reveal_strlit("users");
    reveal_strlit("range");
    reveal_strlit("previous");
    reveal_strlit("next");
    reveal_strlit("thumb");
    reveal_strlit("export");
    reveal_strlit("regions");
    reveal_strlit("image.jpg");
    reveal_strlit("/ws");
    reveal_strlit("/api/event");
    reveal_strlit("/api/event/");
    reveal_strlit("/api/event/range");
    reveal_strlit("/api/event/previous");
    reveal_strlit("/api/event/next");
    reveal_strlit("/api/event/thumb");
    reveal_strlit("/api/event/thumb/");
    reveal_strlit("/api/cameras");
    reveal_strlit("/api/cameras/");
    reveal_strlit("/export");
    reveal_strlit("/regions");
    reveal_strlit("/image.jpg");
    reveal_strlit("/api/detections");
    reveal_strlit("/api/alerts");
    reveal_strlit("/api/alerts/");
    reveal_strlit("/api/auth");
    reveal_strlit("/api/auth_ws");
    reveal_strlit("/api/users");
    if let Some(route) = route_of(method, parts) {
        let none = Seq::<char>::empty();
        assert(parts[0] == none);
        if parts.len() == 2 {
            assert(path == "/ws"@);
        } else if parts.len() == 3 {
            lemma_short_path(path);
        } else if parts.len() == 4 {
            lemma_item_path(path);
        } else if route is Thumb {
            lemma_thumb_path(path);
        } else {
            lemma_part_path(path);
        }
    }
}

/// Whether the text can stand for an identifier in a path.
pub open spec fn is_item(text: Seq<char>) -> bool {
    text.len() > 0 && !text.contains('/')
}

proof fn lemma_short_path(path: Seq<char>)
    requires
        pieces(path, '/').len() == 3,
        pieces(path, '/')[0].len() == 0,
        pieces(path, '/')[1] == "api"@,
    ensures
        path == "/api/"@ + pieces(path, '/')[2],
        pieces(path, '/')[2] == "event"@ ==> path == "/api/event"@,
        pieces(path, '/')[2] == "cameras"@ ==> path == "/api/cameras"@,
        pieces(path, '/')[2] == "detections"@ ==> path == "/api/detections"@,
        pieces(path, '/')[2] == "alerts"@ ==> path == "/api/alerts"@,
        pieces(path, '/')[2] == "auth"@ ==> path == "/api/auth"@,
        pieces(path, '/')[2] == "auth_ws"@ ==> path == "/api/auth_ws"@,
        pieces(path, '/')[2] == "users"@ ==> path == "/api/users"@,
{
    let parts = pieces(path, '/');
    pieces_join_back(path, '/');
    lemma_joined_few(parts);
    reveal_strlit("/api/");
    reveal_strlit("api");
    reveal_strlit("event");
    reveal_strlit("cameras");
    reveal_strlit("detections");
    reveal_strlit("alerts");
    reveal_strlit("auth");
    reveal_strlit("auth_ws");
    reveal_strlit("users");
    reveal_strlit("/api/event");
    reveal_strlit("/api/cameras");
    reveal_strlit("/api/detections");
    reveal_strlit("/api/alerts");
    reveal_strlit("/api/auth");
    reveal_strlit("/api/auth_ws");
    reveal_strlit("/api/users");
    assert(parts[0] == Seq::<char>::empty());
    assert(path =~= "/api/"@ + parts[2]);
    assert("/api/"@ + "event"@ =~= "/api/event"@);
    assert("/api/"@ + "cameras"@ =~= "/api/cameras"@);
    assert("/api/"@ + "detections"@ =~= "/api/detections"@);
    assert("/api/"@ + "alerts"@ =~= "/api/alerts"@);
    assert("/api/"@ + "auth"@ =~= "/api/auth"@);
    assert("/api/"@ + "auth_ws"@ =~= "/api/auth_ws"@);
    assert("/api/"@ + "users"@ =~= "/api/users"@);
}

proof fn lemma_item_path(path: Seq<char>)
    requires
        pieces(path, '/').len() == 4,
        pieces(path, '/')[0].len() == 0,
        pieces(path, '/')[1] == "api"@,
    ensures
        path == ("/api/"@ + pieces(path, '/')[2]).push('/') + pieces(path, '/')[3],
        pieces(path, '/')[2] == "event"@ ==> path == "/api/event/"@ + pieces(path, '/')[3],
        pieces(path, '/')[2] == "cameras"@ ==> path == "/api/cameras/"@ + pieces(path, '/')[3],
        pieces(path, '/')[2] == "alerts"@ ==> path == "/api/alerts/"@ + pieces(path, '/')[3],
        !pieces(path, '/')[3].contains('/'),
        "/api/event/"@ + "range"@ == "/api/event/range"@,
        "/api/event/"@ + "previous"@ == "/api/event/previous"@,
        "/api/event/"@ + "next"@ == "/api/event/next"@,
        "/api/event/"@ + "thumb"@ == "/api/event/thumb"@,
{
    let parts = pieces(path, '/');
    pieces_join_back(path, '/');
    lemma_joined_few(parts);
    reveal_strlit("/api/");
    reveal_strlit("api");
    reveal_strlit("event");
    reveal_strlit("cameras");
    reveal_strlit("alerts");
    reveal_strlit("range");
    reveal_strlit("previous");
    reveal_strlit("next");
    reveal_strlit("thumb");
    reveal_strlit("/api/event/");
    reveal_strlit("/api/event/range");
    reveal_strlit("/api/event/previous");
    reveal_strlit("/api/event/next");
    reveal_strlit("/api/event/thumb");
    reveal_strlit("/api/cameras/");
    reveal_strlit("/api/alerts/");
    assert(parts[0] == Seq::<char>::empty());
    assert(path =~= ("/api/"@ + parts[2]).push('/') + parts[3]);
    assert(("/api/"@ + "event"@).push('/') + parts[3] =~= "/api/event/"@ + parts[3]);
    assert(("/api/"@ + "cameras"@).push('/') + parts[3] =~= "/api/cameras/"@ + parts[3]);
    assert(("/api/"@ + "alerts"@).push('/') + parts[3] =~= "/api/alerts/"@ + parts[3]);
    assert("/api/event/"@ + "range"@ =~= "/api/event/range"@);
    assert("/api/event/"@ + "previous"@ =~= "/api/event/previous"@);
    assert("/api/event/"@ + "next"@ =~= "/api/event/next"@);
    assert("/api/event/"@ + "thumb"@ =~= "/api/event/thumb"@);
}

proof fn lemma_part_path(path: Seq<char>)
    requires
        pieces(path, '/').len() == 5,
        pieces(path, '/')[0].len() == 0,
        pieces(path, '/')[1] == "api"@,
        pieces(path, '/')[2] == "cameras"@,
    ensures
        path == ("/api/cameras/"@ + pieces(path, '/')[3]).push('/') + pieces(path, '/')[4],
        pieces(path, '/')[4] == "export"@ ==> path == "/api/cameras/"@ + pieces(path, '/')[3]
            + "/export"@,
        pieces(path, '/')[4] == "regions"@ ==> path == "/api/cameras/"@ + pieces(path, '/')[3]
            + "/regions"@,
        pieces(path, '/')[4] == "image.jpg"@ ==> path == "/api/cameras/"@ + pieces(path, '/')[3]
            + "/image.jpg"@,
        !pieces(path, '/')[3].contains('/'),
{
    let parts = pieces(path, '/');
    pieces_join_back(path, '/');
    lemma_joined_few(parts);
    reveal_strlit("api");
    reveal_strlit("cameras");
    reveal_strlit("/api/cameras/");
    reveal_strlit("export");
    reveal_strlit("regions");
    reveal_strlit("image.jpg");
    reveal_strlit("/export");
    reveal_strlit("/regions");
    reveal_strlit("/image.jpg");
    assert(parts[0] == Seq::<char>::empty());
    let camera = "/api/cameras/"@ + parts[3];
    assert(path =~= camera.push('/') + parts[4]);
    assert(camera.push('/') + "export"@ =~= camera + "/export"@);
    assert(camera.push('/') + "regions"@ =~= camera + "/regions"@);
    assert(camera.push('/') + "image.jpg"@ =~= camera + "/image.jpg"@);
}

proof fn lemma_thumb_path(path: Seq<char>)
    requires
        pieces(path, '/').len() >= 5,
        pieces(path, '/')[0].len() == 0,
        pieces(path, '/')[1] == "api"@,
        pieces(path, '/')[2] == "event"@,
        pieces(path, '/')[3] == "thumb"@,
    ensures
        exists|rest: Seq<char>| path == #[trigger] ("/api/event/thumb/"@ + rest),
{
    let parts = pieces(path, '/');
    pieces_join_back(path, '/');
    lemma_joined(parts, 4);
    let head = parts.take(4);
    let rest = joined(parts.skip(4), '/');
    lemma_joined_few(head);
    reveal_strlit("api");
    reveal_strlit("event");
    reveal_strlit("thumb");
    reveal_strlit("/api/event/thumb/");
    assert(head[0] == Seq::<char>::empty());
    assert(head[1] == "api"@ && head[2] == "event"@ && head[3] == "thumb"@);
    assert(path =~= "/api/event/thumb/"@ + rest);
}

/// Only logging in and out and the pictures are open to everybody, and only a socket
/// is opened by its token.
pub proof fn what_is_open<T>(route: Route<T>)
    ensures
        route.is_open() <==> match route {
            Route::Login => true,
            Route::Logout => true,
            Route::Thumb => true,
            _ => false,
        },
{
}

/// The written form of an identifier can stand in a path, so whatever is asked for by
/// identifier is found by it.
pub proof fn identifiers_stand_in_paths(id: ObjectId)
    ensures
        is_item(hex_of(id)),
        route_of(Method::Delete, pieces("/api/alerts/"@ + hex_of(id), '/')) == Some(
            Route::DeleteAlert(hex_of(id)),
        ),
        route_of(Method::Post, pieces("/api/alerts/"@ + hex_of(id), '/')) == Some(
            Route::UpdateAlert(hex_of(id)),
        ),
        route_of(Method::Get, pieces("/api/cameras/"@ + hex_of(id), '/')) == Some(
            Route::GetCamera(hex_of(id)),
        ),
        route_of(Method::Get, pieces("/api/event/"@ + hex_of(id), '/')) == Some(
            Route::GetEvent(hex_of(id)),
        ),
{
    let text = hex_of(id);
    written_id_reads_back(id, id);
    assert(!text.contains('/')) by {
        if text.contains('/') {
            let i = choose|i: int| 0 <= i < text.len() && text[i] == '/';
            assert(is_hex_digit(text[i]));
        }
    }
    reveal_strlit("range");
    reveal_strlit("previous");
    reveal_strlit("next");
    alerts_are_found_by_path(text);
    cameras_are_found_by_path(text);
    events_are_found_by_path(text, text);
}

/// A route is the same whether its identifier is a text or what the text reads.
pub proof fn routes_keep_their_identifier(text: String, id: ObjectId)
    ensures
        route_text(Route::GetEvent(text)) == Route::GetEvent(text@),
        route_text(Route::GetCamera(text)) == Route::GetCamera(text@),
        route_text(Route::Export(text)) == Route::Export(text@),
        route_text(Route::UpdateCamera(text)) == Route::UpdateCamera(text@),
        route_text(Route::GetRegions(text)) == Route::GetRegions(text@),
        route_text(Route::UpdateRegions(text)) == Route::UpdateRegions(text@),
        route_text(Route::GetCameraImage(text)) == Route::GetCameraImage(text@),
        route_text(Route::UpdateAlert(text)) == Route::UpdateAlert(text@),
        route_text(Route::DeleteAlert(text)) == Route::DeleteAlert(text@),
        route_number(Route::GetEvent(id)) == Route::GetEvent(id@),
        route_number(Route::GetCamera(id)) == Route::GetCamera(id@),
        route_number(Route::Export(id)) == Route::Export(id@),
        route_number(Route::UpdateCamera(id)) == Route::UpdateCamera(id@),
        route_number(Route::GetRegions(id)) == Route::GetRegions(id@),
        route_number(Route::UpdateRegions(id)) == Route::UpdateRegions(id@),
        route_number(Route::GetCameraImage(id)) == Route::GetCameraImage(id@),
        route_number(Route::UpdateAlert(id)) == Route::UpdateAlert(id@),
        route_number(Route::DeleteAlert(id)) == Route::DeleteAlert(id@),
{
}

/// A route that takes no identifier is the same in all its forms.
pub proof fn routes_without_identifier_are_kept(route: Route<String>, other: Route<ObjectId>)
    ensures
        route is GetEvents == route_text(route) is GetEvents,
        route is GetEventRange == route_text(route) is GetEventRange,
        route is GetEventPrevious == route_text(route) is GetEventPrevious,
        route is GetEventNext == route_text(route) is GetEventNext,
        route is GetCameras == route_text(route) is GetCameras,
        route is GetDetections == route_text(route) is GetDetections,
        route is GetAlerts == route_text(route) is GetAlerts,
        route is AddAlert == route_text(route) is AddAlert,
        route is AuthWs == route_text(route) is AuthWs,
        route is WsIndex == route_text(route) is WsIndex,
        route is Thumb == route_text(route) is Thumb,
        route is Whoami == route_text(route) is Whoami,
        route is Login == route_text(route) is Login,
        route is Logout == route_text(route) is Logout,
        route is AddUser == route_text(route) is AddUser,
        other is GetEvents == route_number(other) is GetEvents,
        other is GetEventRange == route_number(other) is GetEventRange,
        other is GetEventPrevious == route_number(other) is GetEventPrevious,
        other is GetEventNext == route_number(other) is GetEventNext,
        other is GetCameras == route_number(other) is GetCameras,
        other is GetDetections == route_number(other) is GetDetections,
        other is GetAlerts == route_number(other) is GetAlerts,
        other is AddAlert == route_number(other) is AddAlert,
        other is WsIndex == route_number(other) is WsIndex,
        other is Thumb == route_number(other) is Thumb,
{
}

/// Whether a path is that text, but perhaps for a slash behind it.
pub open spec fn path_is(path: Seq<char>, text: Seq<char>) -> bool {
    path == text || path == text.push('/')
}

/// Whether a path is that text, or goes on behind it with a slash.
pub open spec fn path_begins(path: Seq<char>, text: Seq<char>) -> bool {
    path == text || exists|rest: Seq<char>| path == #[trigger] (text.push('/') + rest)
}

proof fn lemma_path_begins(path: Seq<char>, text: Seq<char>)
    ensures
        path_is(path, text) ==> path_begins(path, text),
        path_begins(path, text) ==> ({
            let n = pieces(text, '/').len() as int;
            &&& n <= pieces(path, '/').len()
            &&& pieces(path, '/').take(n) == pieces(text, '/')
        }),
        path_is(path, text) ==> ends_at(pieces(path, '/'), pieces(text, '/').len() as int),
{
    let base = pieces(text, '/');
    let n = base.len() as int;
    if path == text.push('/') {
        let none = Seq::<char>::empty();
        assert(path == text.push('/') + none);
        texts_are_cut_one_by_one(text, none, '/');
        assert(pieces(none, '/') == seq![none]);
        assert(pieces(path, '/')[n] == none);
    }
    if path == text {
        assert(pieces(path, '/').take(n) == base);
    } else if path_begins(path, text) {
        let rest = choose|rest: Seq<char>| path == #[trigger] (text.push('/') + rest);
        texts_are_cut_one_by_one(text, rest, '/');
        assert((base + pieces(rest, '/')).take(n) == base);
    }
}

/// What a server without accounts answers by path: sockets and detections, which look
/// no further than their word; cameras and what belongs to one; the identifier has to
/// be a written one, and a slash may stand at the end.
pub proof fn plain_requests_are_found_by_path(path: Seq<char>, id: Seq<char>)
    requires
        is_written_id(id),
    ensures
        path_begins(path, "/ws"@) ==> plain_route_of(Method::Get, pieces(path, '/')) == Some(
            Route::<int>::WsIndex,
        ),
        path_begins(path, "/api/detections"@) ==> plain_route_of(Method::Get, pieces(path, '/'))
            == Some(Route::<int>::GetDetections),
        path_is(path, "/api/cameras"@) ==> plain_route_of(Method::Get, pieces(path, '/')) == Some(
            Route::<int>::GetCameras,
        ),
        path_is(path, "/api/cameras/"@ + id) ==> plain_route_of(Method::Get, pieces(path, '/'))
            == Some(Route::GetCamera(hex_value(id))),
        path_is(path, "/api/cameras/"@ + id) ==> plain_route_of(Method::Post, pieces(path, '/'))
            == Some(Route::UpdateCamera(hex_value(id))),
        path_begins(path, "/api/cameras/"@ + id + "/export"@) ==> plain_route_of(
            Method::Get,
            pieces(path, '/'),
        ) == Some(Route::Export(hex_value(id))),
        path_is(path, "/api/cameras/"@ + id + "/image.jpg"@) ==> plain_route_of(
            Method::Get,
            pieces(path, '/'),
        ) == Some(Route::GetCameraImage(hex_value(id))),
        path_is(path, "/api/cameras/"@ + id + "/regions"@) ==> plain_route_of(
            Method::Get,
            pieces(path, '/'),
        ) == Some(Route::GetRegions(hex_value(id))),
        path_is(path, "/api/cameras/"@ + id + "/regions"@) ==> plain_route_of(
            Method::Post,
            pieces(path, '/'),
        ) == Some(Route::UpdateRegions(hex_value(id))),
{
    let parts = pieces(path, '/');
    let none = Seq::<char>::empty();
    lemma_words();
    lemma_id_is_item(id);
    reveal_strlit("ws");
    reveal_strlit("/ws");
    reveal_strlit("/api/");
    reveal_strlit("detections");
    reveal_strlit("/api/detections");
    reveal_strlit("cameras");
    reveal_strlit("/api/cameras");
    reveal_strlit("/api/cameras/");
    reveal_strlit("export");
    reveal_strlit("/export");
    reveal_strlit("regions");
    reveal_strlit("/regions");
    reveal_strlit("image.jpg");
    reveal_strlit("/image.jpg");
    texts_are_cut_one_by_one(none, none, '/');
    lemma_cut_path(none, "ws"@);
    assert(none.push('/') + "ws"@ == "/ws"@);
    lemma_path_begins(path, "/ws"@);
    if path_begins(path, "/ws"@) {
        assert(parts.take(2)[0] == none && parts.take(2)[1] == "ws"@);
    }
    lemma_cut_short("detections"@);
    assert("/api/"@ + "detections"@ == "/api/detections"@);
    lemma_path_begins(path, "/api/detections"@);
    if path_begins(path, "/api/detections"@) {
        lemma_first_three(parts, "detections"@);
    }
    lemma_cut_short("cameras"@);
    assert("/api/"@ + "cameras"@ == "/api/cameras"@);
    lemma_path_begins(path, "/api/cameras"@);
    if path_is(path, "/api/cameras"@) {
        lemma_first_three(parts, "cameras"@);
    }
    let camera = "/api/cameras/"@ + id;
    lemma_cut_item("cameras"@, id);
    assert(("/api/"@ + "cameras"@).push('/') + id == camera);
    lemma_path_begins(path, camera);
    if path_is(path, camera) {
        lemma_first_four(parts, "cameras"@, id);
    }
    lemma_cut_part("cameras"@, id, "export"@);
    assert(camera.push('/') + "export"@ == camera + "/export"@);
    lemma_path_begins(path, camera + "/export"@);
    if path_begins(path, camera + "/export"@) {
        lemma_first_five(parts, "cameras"@, id, "export"@);
    }
    lemma_cut_part("cameras"@, id, "image.jpg"@);
    assert(camera.push('/') + "image.jpg"@ == camera + "/image.jpg"@);
    lemma_path_begins(path, camera + "/image.jpg"@);
    if path_is(path, camera + "/image.jpg"@) {
        lemma_first_five(parts, "cameras"@, id, "image.jpg"@);
    }
    lemma_cut_part("cameras"@, id, "regions"@);
    assert(camera.push('/') + "regions"@ == camera + "/regions"@);
    lemma_path_begins(path, camera + "/regions"@);
    if path_is(path, camera + "/regions"@) {
        lemma_first_five(parts, "cameras"@, id, "regions"@);
    }
}

/// What a server without accounts answers by path: events, the words for ranges and
/// jumps and the folder of the pictures, which look no further; and alerts.
pub proof fn plain_events_and_alerts_are_found_by_path(path: Seq<char>, id: Seq<char>)
    requires
        is_written_id(id),
    ensures
        path_is(path, "/api/event"@) ==> plain_route_of(Method::Get, pieces(path, '/')) == Some(
            Route::<int>::GetEvents,
        ),
        path_begins(path, "/api/event/range"@) ==> plain_route_of(Method::Get, pieces(path, '/'))
            == Some(Route::<int>::GetEventRange),
        path_begins(path, "/api/event/previous"@) ==> plain_route_of(
            Method::Get,
            pieces(path, '/'),
        ) == Some(Route::<int>::GetEventPrevious),
        path_begins(path, "/api/event/next"@) ==> plain_route_of(Method::Get, pieces(path, '/'))
            == Some(Route::<int>::GetEventNext),
        path_begins(path, "/api/event/thumb"@) ==> plain_route_of(Method::Get, pieces(path, '/'))
            == Some(Route::<int>::Thumb) && plain_route_of(Method::Head, pieces(path, '/')) == Some(
            Route::<int>::Thumb,
        ),
        path_is(path, "/api/event/"@ + id) ==> plain_route_of(Method::Get, pieces(path, '/'))
            == Some(Route::GetEvent(hex_value(id))),
        path_is(path, "/api/alerts"@) ==> plain_route_of(Method::Get, pieces(path, '/')) == Some(
            Route::<int>::GetAlerts,
        ) && plain_route_of(Method::Post, pieces(path, '/')) == Some(Route::<int>::AddAlert),
        path_is(path, "/api/alerts/"@ + id) ==> plain_route_of(Method::Post, pieces(path, '/'))
            == Some(Route::UpdateAlert(hex_value(id))) && plain_route_of(
            Method::Delete,
            pieces(path, '/'),
        ) == Some(Route::DeleteAlert(hex_value(id))),
{
    let parts = pieces(path, '/');
    lemma_words();
    lemma_id_is_item(id);
    reveal_strlit("/api/");
    reveal_strlit("event");
    reveal_strlit("/api/event");
    reveal_strlit("/api/event/");
    reveal_strlit("range");
    reveal_strlit("/api/event/range");
    reveal_strlit("previous");
    reveal_strlit("/api/event/previous");
    reveal_strlit("next");
    reveal_strlit("/api/event/next");
    reveal_strlit("thumb");
    reveal_strlit("/api/event/thumb");
    reveal_strlit("alerts");
    reveal_strlit("/api/alerts");
    reveal_strlit("/api/alerts/");
    let event = ("/api/"@ + "event"@).push('/');
    lemma_cut_short("event"@);
    assert("/api/"@ + "event"@ == "/api/event"@);
    lemma_path_begins(path, "/api/event"@);
    if path_is(path, "/api/event"@) {
        lemma_first_three(parts, "event"@);
    }
    lemma_cut_item("event"@, "range"@);
    assert(event + "range"@ == "/api/event/range"@);
    lemma_path_begins(path, "/api/event/range"@);
    if path_begins(path, "/api/event/range"@) {
        lemma_first_four(parts, "event"@, "range"@);
    }
    lemma_cut_item("event"@, "previous"@);
    assert(event + "previous"@ == "/api/event/previous"@);
    lemma_path_begins(path, "/api/event/previous"@);
    if path_begins(path, "/api/event/previous"@) {
        lemma_first_four(parts, "event"@, "previous"@);
    }
    lemma_cut_item("event"@, "next"@);
    assert(event + "next"@ == "/api/event/next"@);
    lemma_path_begins(path, "/api/event/next"@);
    if path_begins(path, "/api/event/next"@) {
        lemma_first_four(parts, "event"@, "next"@);
    }
    lemma_cut_item("event"@, "thumb"@);
    assert(event + "thumb"@ == "/api/event/thumb"@);
    lemma_path_begins(path, "/api/event/thumb"@);
    if path_begins(path, "/api/event/thumb"@) {
        lemma_first_four(parts, "event"@, "thumb"@);
    }
    lemma_cut_item("event"@, id);
    assert(event + id == "/api/event/"@ + id);
    lemma_path_begins(path, "/api/event/"@ + id);
    if path_is(path, "/api/event/"@ + id) {
        lemma_first_four(parts, "event"@, id);
    }
    lemma_cut_short("alerts"@);
    assert("/api/"@ + "alerts"@ == "/api/alerts"@);
    lemma_path_begins(path, "/api/alerts"@);
    if path_is(path, "/api/alerts"@) {
        lemma_first_three(parts, "alerts"@);
    }
    lemma_cut_item("alerts"@, id);
    assert(("/api/"@ + "alerts"@).push('/') + id == "/api/alerts/"@ + id);
    lemma_path_begins(path, "/api/alerts/"@ + id);
    if path_is(path, "/api/alerts/"@ + id) {
        lemma_first_four(parts, "alerts"@, id);
    }
}

proof fn lemma_id_is_item(id: Seq<char>)
    requires
        is_written_id(id),
    ensures
        is_item(id),
        id.len() == 24,
{
    if id.contains('/') {
        let i = choose|i: int| 0 <= i < id.len() && id[i] == '/';
        assert(is_hex_digit(id[i]));
    }
}

proof fn lemma_first_three(parts: Seq<Seq<char>>, head: Seq<char>)
    requires
        parts.len() >= 3,
        parts.take(3) == seq![Seq::<char>::empty(), "api"@, head],
    ensures
        parts[0].len() == 0,
        parts[1] == "api"@,
        parts[2] == head,
{
    assert(parts.take(3)[0] == parts[0]);
    assert(parts.take(3)[1] == parts[1]);
    assert(parts.take(3)[2] == parts[2]);
}

proof fn lemma_first_four(parts: Seq<Seq<char>>, head: Seq<char>, item: Seq<char>)
    requires
        parts.len() >= 4,
        parts.take(4) == seq![Seq::<char>::empty(), "api"@, head, item],
    ensures
        parts[0].len() == 0,
        parts[1] == "api"@,
        parts[2] == head,
        parts[3] == item,
{
    assert(parts.take(4)[0] == parts[0]);
    assert(parts.take(4)[1] == parts[1]);
    assert(parts.take(4)[2] == parts[2]);
    assert(parts.take(4)[3] == parts[3]);
}

proof fn lemma_first_five(
    parts: Seq<Seq<char>>,
    head: Seq<char>,
    item: Seq<char>,
    part: Seq<char>,
)
    requires
        parts.len() >= 5,
        parts.take(5) == seq![Seq::<char>::empty(), "api"@, head, item, part],
    ensures
        parts[0].len() == 0,
        parts[1] == "api"@,
        parts[2] == head,
        parts[3] == item,
        parts[4] == part,
{
    assert(parts.take(5)[0] == parts[0]);
    assert(parts.take(5)[1] == parts[1]);
    assert(parts.take(5)[2] == parts[2]);
    assert(parts.take(5)[3] == parts[3]);
    assert(parts.take(5)[4] == parts[4]);
}

proof fn lemma_path_of_pieces(path: Seq<char>, n: int)
    requires
        1 <= n <= pieces(path, '/').len(),
    ensures
        path_begins(path, joined(pieces(path, '/').take(n), '/')),
        ends_at(pieces(path, '/'), n) ==> path_is(path, joined(pieces(path, '/').take(n), '/')),
{
    let parts = pieces(path, '/');
    pieces_join_back(path, '/');
    if n == parts.len() {
        assert(parts.take(n) == parts);
    } else {
        lemma_joined(parts, n);
        let rest = joined(parts.skip(n), '/');
        assert(path == joined(parts.take(n), '/').push('/') + rest);
        if ends_at(parts, n) {
            assert(parts.skip(n) == seq![parts[n]]);
            assert(rest == Seq::<char>::empty());
            assert(path == joined(parts.take(n), '/').push('/'));
        }
    }
}

/// Whether the path is that of something with a written identifier of that value:
/// `before`, the identifier and `behind`, and perhaps a slash.
pub open spec fn path_holds(
    path: Seq<char>,
    before: Seq<char>,
    value: int,
    behind: Seq<char>,
) -> bool {
    exists|id: Seq<char>| #[trigger]
        is_written_id(id) && hex_value(id) == value && path_is(path, before + id + behind)
}

/// A server without accounts answers nothing else: each route is given only for the
/// method and the paths that belong to it.
pub proof fn plain_routes_lead_back_to_paths(method: Method, path: Seq<char>)
    ensures
        plain_route_of(method, pieces(path, '/')) matches Some(route) ==> match route {
            Route::WsIndex => method is Get && path_begins(path, "/ws"@),
            Route::GetDetections => method is Get && path_begins(path, "/api/detections"@),
            Route::GetEvents => method is Get && path_is(path, "/api/event"@),
            Route::GetEventRange => method is Get && path_begins(path, "/api/event/range"@),
            Route::GetEventPrevious => method is Get && path_begins(path, "/api/event/previous"@),
            Route::GetEventNext => method is Get && path_begins(path, "/api/event/next"@),
            Route::Thumb => (method is Get || method is Head) && path_begins(
                path,
                "/api/event/thumb"@,
            ),
            Route::GetEvent(id) => method is Get && path_holds(
                path,
                "/api/event/"@,
                id,
                Seq::empty(),
            ),
            Route::GetCameras => method is Get && path_is(path, "/api/cameras"@),
            Route::GetCamera(id) => method is Get && path_holds(
                path,
                "/api/cameras/"@,
                id,
                Seq::empty(),
            ),
            Route::UpdateCamera(id) => method is Post && path_holds(
                path,
                "/api/cameras/"@,
                id,
                Seq::empty(),
            ),
            Route::Export(value) => method is Get && exists|id: Seq<char>| #[trigger]
                is_written_id(id) && hex_value(id) == value && path_begins(
                    path,
                    "/api/cameras/"@ + id + "/export"@,
                ),
            Route::GetRegions(id) => method is Get && path_holds(
                path,
                "/api/cameras/"@,
                id,
                "/regions"@,
            ),
            Route::UpdateRegions(id) => method is Post && path_holds(
                path,
                "/api/cameras/"@,
                id,
                "/regions"@,
            ),
            Route::GetCameraImage(id) => method is Get && path_holds(
                path,
                "/api/cameras/"@,
                id,
                "/image.jpg"@,
            ),
            Route::GetAlerts => method is Get && path_is(path, "/api/alerts"@),
            Route::AddAlert => method is Post && path_is(path, "/api/alerts"@),
            Route::UpdateAlert(id) => method is Post && path_holds(
                path,
                "/api/alerts/"@,
                id,
                Seq::empty(),
            ),
            Route::DeleteAlert(id) => method is Delete && path_holds(
                path,
                "/api/alerts/"@,
                id,
                Seq::empty(),
            ),
            _ => false,
        },
{
    let parts = pieces(path, '/');
    if let Some(route) = plain_route_of(method, parts) {
        let none = Seq::<char>::empty();
        lemma_words();
        assert(parts[0] == none);
        if route is WsIndex {
            reveal_strlit("ws");
            reveal_strlit("/ws");
            lemma_path_of_pieces(path, 2);
            lemma_joined_few(parts.take(2));
            assert(none.push('/') + "ws"@ == "/ws"@);
        } else {
            assert(parts.len() >= 3);
            lemma_plain_short(path);
            if parts.len() >= 4 {
                lemma_plain_item(path);
                let id = parts[3];
                assert("/api/event/"@ + id + none == "/api/event/"@ + id);
                assert("/api/cameras/"@ + id + none == "/api/cameras/"@ + id);
                assert("/api/alerts/"@ + id + none == "/api/alerts/"@ + id);
                if parts.len() >= 5 {
                    lemma_plain_part(path);
                }
            }
        }
    }
}

proof fn lemma_plain_short(path: Seq<char>)
    requires
        pieces(path, '/').len() >= 3,
        pieces(path, '/')[0].len() == 0,
        pieces(path, '/')[1] == "api"@,
    ensures
        pieces(path, '/')[2] == "detections"@ ==> path_begins(path, "/api/detections"@),
        ends_at(pieces(path, '/'), 3) ==> {
            &&& pieces(path, '/')[2] == "event"@ ==> path_is(path, "/api/event"@)
            &&& pieces(path, '/')[2] == "cameras"@ ==> path_is(path, "/api/cameras"@)
            &&& pieces(path, '/')[2] == "alerts"@ ==> path_is(path, "/api/alerts"@)
        },
{
    let parts = pieces(path, '/');
    lemma_path_of_pieces(path, 3);
    lemma_joined_few(parts.take(3));
    reveal_strlit("api");
    reveal_strlit("detections");
    reveal_strlit("event");
    reveal_strlit("cameras");
    reveal_strlit("alerts");
    reveal_strlit("/api/detections");
    reveal_strlit("/api/event");
    reveal_strlit("/api/cameras");
    reveal_strlit("/api/alerts");
    let root = Seq::<char>::empty().push('/') + "api"@;
    assert(parts[0] == Seq::<char>::empty());
    assert(root.push('/') + "detections"@ =~= "/api/detections"@);
    assert(root.push('/') + "event"@ =~= "/api/event"@);
    assert(root.push('/') + "cameras"@ =~= "/api/cameras"@);
    assert(root.push('/') + "alerts"@ =~= "/api/alerts"@);
}

proof fn lemma_plain_item(path: Seq<char>)
    requires
        pieces(path, '/').len() >= 4,
        pieces(path, '/')[0].len() == 0,
        pieces(path, '/')[1] == "api"@,
    ensures
        ({
            let parts = pieces(path, '/');
            &&& parts[2] == "event"@ ==> path_begins(path, "/api/event/"@ + parts[3])
            &&& ends_at(parts, 4) ==> {
                &&& parts[2] == "event"@ ==> path_is(path, "/api/event/"@ + parts[3])
                &&& parts[2] == "cameras"@ ==> path_is(path, "/api/cameras/"@ + parts[3])
                &&& parts[2] == "alerts"@ ==> path_is(path, "/api/alerts/"@ + parts[3])
            }
        }),
        "/api/event/"@ + "range"@ == "/api/event/range"@,
        "/api/event/"@ + "previous"@ == "/api/event/previous"@,
        "/api/event/"@ + "next"@ == "/api/event/next"@,
        "/api/event/"@ + "thumb"@ == "/api/event/thumb"@,
{
    let parts = pieces(path, '/');
    lemma_path_of_pieces(path, 4);
    lemma_joined_few(parts.take(4));
    reveal_strlit("api");
    reveal_strlit("event");
    reveal_strlit("cameras");
    reveal_strlit("alerts");
    reveal_strlit("range");
    reveal_strlit("previous");
    reveal_strlit("next");
    reveal_strlit("thumb");
    reveal_strlit("/api/event/");
    reveal_strlit("/api/event/range");
    reveal_strlit("/api/event/previous");
    reveal_strlit("/api/event/next");
    reveal_strlit("/api/event/thumb");
    reveal_strlit("/api/cameras/");
    reveal_strlit("/api/alerts/");
    let root = Seq::<char>::empty().push('/') + "api"@;
    assert(parts[0] == Seq::<char>::empty());
    assert((root.push('/') + "event"@).push('/') + parts[3] =~= "/api/event/"@ + parts[3]);
    assert((root.push('/') + "cameras"@).push('/') + parts[3] =~= "/api/cameras/"@ + parts[3]);
    assert((root.push('/') + "alerts"@).push('/') + parts[3] =~= "/api/alerts/"@ + parts[3]);
    assert("/api/event/"@ + "range"@ =~= "/api/event/range"@);
    assert("/api/event/"@ + "previous"@ =~= "/api/event/previous"@);
    assert("/api/event/"@ + "next"@ =~= "/api/event/next"@);
    assert("/api/event/"@ + "thumb"@ =~= "/api/event/thumb"@);
}

proof fn lemma_plain_part(path: Seq<char>)
    requires
        pieces(path, '/').len() >= 5,
        pieces(path, '/')[0].len() == 0,
        pieces(path, '/')[1] == "api"@,
    ensures
        ({
            let parts = pieces(path, '/');
            let camera = "/api/cameras/"@ + parts[3];
            parts[2] == "cameras"@ ==> {
                &&& parts[4] == "export"@ ==> path_begins(path, camera + "/export"@)
                &&& ends_at(parts, 5) ==> {
                    &&& parts[4] == "regions"@ ==> path_is(path, camera + "/regions"@)
                    &&& parts[4] == "image.jpg"@ ==> path_is(path, camera + "/image.jpg"@)
                }
            }
        }),
{
    let parts = pieces(path, '/');
    lemma_path_of_pieces(path, 5);
    lemma_joined_few(parts.take(5));
    reveal_strlit("api");
    reveal_strlit("cameras");
    reveal_strlit("/api/cameras/");
    reveal_strlit("export");
    reveal_strlit("regions");
    reveal_strlit("image.jpg");
    reveal_strlit("/export");
    reveal_strlit("/regions");
    reveal_strlit("/image.jpg");
    let root = Seq::<char>::empty().push('/') + "api"@;
    let camera = "/api/cameras/"@ + parts[3];
    assert(parts[0] == Seq::<char>::empty());
    assert((root.push('/') + "cameras"@).push('/') + parts[3] =~= camera);
    assert(camera.push('/') + "export"@ =~= camera + "/export"@);
    assert(camera.push('/') + "regions"@ =~= camera + "/regions"@);
    assert(camera.push('/') + "image.jpg"@ =~= camera + "/image.jpg"@);
}

} // verus!
