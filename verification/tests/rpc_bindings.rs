use tapline::rpc::Rpc;
use tapline::steammessages_contentsystem_steamclient::{
    CContentServerDirectory_GetManifestRequestCode_Request,
    CContentServerDirectory_GetManifestRequestCode_Response,
    CContentServerDirectory_GetServersForSteamPipe_Request,
    CContentServerDirectory_GetServersForSteamPipe_Response,
};
use tapline::steammessages_publishedfile_steamclient::{
    CPublishedFile_GetDetails_Request, CPublishedFile_GetDetails_Response,
    CPublishedFile_GetUserFiles_Request, TARGET_PUBLISHED_FILE_GET_USER_FILE_COUNT,
};

fn manifest_code_response(
    r: <CContentServerDirectory_GetManifestRequestCode_Request as Rpc>::Response,
) -> CContentServerDirectory_GetManifestRequestCode_Response {
    r
}

fn steam_pipe_response(
    r: <CContentServerDirectory_GetServersForSteamPipe_Request as Rpc>::Response,
) -> CContentServerDirectory_GetServersForSteamPipe_Response {
    r
}

fn details_response(
    r: <CPublishedFile_GetDetails_Request as Rpc>::Response,
) -> CPublishedFile_GetDetails_Response {
    r
}

#[test]
fn the_content_system_bindings_are_present() {
    assert_eq!(
        <CContentServerDirectory_GetManifestRequestCode_Request as Rpc>::TARGET,
        "ContentServerDirectory.GetManifestRequestCode"
    );
    let _ = manifest_code_response;

    assert_eq!(
        <CContentServerDirectory_GetServersForSteamPipe_Request as Rpc>::TARGET,
        "ContentServerDirectory.GetServersForSteamPipe"
    );
    let _ = steam_pipe_response;
}

#[test]
fn the_workshop_binding_is_present() {
    assert_eq!(
        <CPublishedFile_GetDetails_Request as Rpc>::TARGET,
        "PublishedFile.GetDetails"
    );
    let _ = details_response;
}

#[test]
fn a_shared_request_type_still_exposes_its_other_target() {
    assert_eq!(
        <CPublishedFile_GetUserFiles_Request as Rpc>::TARGET,
        "PublishedFile.GetUserFiles"
    );
    assert_eq!(
        TARGET_PUBLISHED_FILE_GET_USER_FILE_COUNT,
        "PublishedFile.GetUserFileCount"
    );
}
