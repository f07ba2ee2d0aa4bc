use bridgething::companion::{WebappRole, WebappSource};
use bridgething::net::{
    cache_control, hub_route, scope_from_query, tile_label, tile_uninstall_result, tile_uninstall_target, HubRoute,
    TileRefusal, UninstallTileBody,
};
use bridgething::webapp_handler::ClientScope;
use bridgething::webapps::{ReservedIds, Uninstall, WebappBundle, WebappRegistry};

const HUB: u128 = 0x0197_0000_0000_7000_8000_0000_0000_0002;

fn bundle(id: u128, name: &str, source: WebappSource) -> WebappBundle {
    WebappBundle {
        path: format!("/webapps/{id:032x}"),
        source,
        id,
        name: name.to_string(),
        version: "0.1.0".to_string(),
        role: WebappRole::Standard,
        description: None,
        icon_mime: None,
        icon_hash: None,
        settings_hash: None,
        overlay_hash: None,
        has_app_entry: true,
        extension: None,
        provenance: None,
    }
}

#[test]
fn an_overlay_socket_names_its_scope_in_the_query() {
    assert_eq!(scope_from_query(Some("scope=overlay")), ClientScope::Overlay);
    assert_eq!(scope_from_query(Some("a=1&scope=overlay")), ClientScope::Overlay);
    assert_eq!(scope_from_query(Some("scope=overlay&b=2")), ClientScope::Overlay);
    assert_eq!(scope_from_query(Some("scope=overlays")), ClientScope::ActiveWebapp);
    assert_eq!(scope_from_query(Some("xscope=overlay")), ClientScope::ActiveWebapp);
    assert_eq!(scope_from_query(None), ClientScope::ActiveWebapp);
}

#[test]
fn hashed_assets_are_cached_for_a_year() {
    assert_eq!(cache_control("/assets/app.1234.js"), "public, max-age=31536000, immutable");
    assert_eq!(cache_control("/index.html"), "no-cache");
}

#[test]
fn hub_paths_are_pinned_to_the_launcher_hash() {
    assert_eq!(hub_route("/index.html", "h1"), HubRoute::NotHub);
    assert_eq!(hub_route("/_hub/", "h1"), HubRoute::Redirect { location: "/_hub/h1/".to_string() });
    assert_eq!(
        hub_route("/_hub/old/app.js", "h1"),
        HubRoute::Redirect { location: "/_hub/h1/app.js".to_string() }
    );
    assert_eq!(hub_route("/_hub/h1", "h1"), HubRoute::Serve { path: "/".to_string() });
    assert_eq!(hub_route("/_hub/h1/", "h1"), HubRoute::Serve { path: "/".to_string() });
    assert_eq!(hub_route("/_hub/h1//a/b", "h1"), HubRoute::Serve { path: "/a/b".to_string() });
}

#[test]
fn a_tile_uninstall_is_only_taken_from_the_device() {
    let mut reg = WebappRegistry::new(ReservedIds { stock: 1, hub: HUB, browser: 3 }, &[]);
    reg.rescan(vec![bundle(HUB, "hub", WebappSource::Builtin)], vec![bundle(10, "clock", WebappSource::Installed)], &[]);
    assert_eq!(
        tile_uninstall_target(&reg, false, Some(10)),
        Err(TileRefusal { status: 403, message: "tile uninstall is only available on the device" })
    );
    assert_eq!(
        tile_uninstall_target(&reg, true, None),
        Err(TileRefusal { status: 404, message: "no installed app with that name" })
    );
    assert_eq!(
        tile_uninstall_target(&reg, true, Some(HUB)),
        Err(TileRefusal { status: 403, message: "that app cannot be uninstalled" })
    );
    assert_eq!(tile_uninstall_target(&reg, true, Some(10)), Ok(10));
    assert_eq!(tile_label(&UninstallTileBody { name: "  Clock \n".to_string() }), "Clock");
}

#[test]
fn a_tile_uninstall_that_removed_nothing_is_not_installed() {
    assert_eq!(tile_uninstall_result(&Uninstall::Tombstoned), Ok(()));
    assert_eq!(tile_uninstall_result(&Uninstall::DeleteInstalled { path: "/x".to_string() }), Ok(()));
    assert_eq!(
        tile_uninstall_result(&Uninstall::Unknown),
        Err(TileRefusal { status: 404, message: "app is not installed" })
    );
    assert_eq!(
        tile_uninstall_result(&Uninstall::Refused),
        Err(TileRefusal { status: 404, message: "app is not installed" })
    );
}
