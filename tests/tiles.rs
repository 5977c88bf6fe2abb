use slippy_map::cache::CacheError;
use slippy_map::cache::CacheIndex;
use slippy_map::cache::DownloadRecord;
use slippy_map::location::tile_path;
use slippy_map::location::tile_url;
use slippy_map::neighborhood::expand;
use slippy_map::neighborhood::FetchRequest;
use slippy_map::queue::FetchQueue;
use slippy_map::queue::DEFAULT_FETCH_LIMIT;
use slippy_map::scheduler::finish_fetch;
use slippy_map::scheduler::plan_fetch;
use slippy_map::tile::grid_size;
use slippy_map::tile::to_pixel_offset;
use slippy_map::tile::to_tile;
use slippy_map::tile::world_x_of_longitude;
use slippy_map::tile::SlippyTileKey;
use slippy_map::tile::TileSize;
use slippy_map::tile::WorldPoint;

fn key(zoom: u8, x: u32, y: u32) -> SlippyTileKey {
    SlippyTileKey { zoom, x, y, size: TileSize::Normal }
}

fn request(zoom: u8, center: WorldPoint, radius: u32, use_cache: bool) -> FetchRequest {
    FetchRequest { tile_size: TileSize::Normal, zoom_level: zoom, center, radius, use_cache }
}

#[test]
fn tile_sizes_in_pixels() {
    assert_eq!(TileSize::Normal.to_pixels(), 256);
    assert_eq!(TileSize::Large.to_pixels(), 512);
}

#[test]
fn grid_size_is_power_of_two() {
    assert_eq!(grid_size(0), 1);
    assert_eq!(grid_size(1), 2);
    assert_eq!(grid_size(10), 1024);
    assert_eq!(grid_size(19), 524288);
}

#[test]
fn origin_falls_on_centre_tile() {
    let o = WorldPoint::origin();
    for zoom in 1..=19u8 {
        let t = to_tile(o, zoom, TileSize::Normal);
        let half = 1u32 << (zoom - 1);
        assert_eq!((t.x, t.y), (half, half));
        assert_eq!(t.zoom, zoom);
    }
    let t0 = to_tile(o, 0, TileSize::Large);
    assert_eq!((t0.x, t0.y, t0.size), (0, 0, TileSize::Large));
}

#[test]
fn to_tile_is_deterministic() {
    let p = WorldPoint { x: 123_456_789, y: 3_987_654_321 };
    assert_eq!(to_tile(p, 12, TileSize::Normal), to_tile(p, 12, TileSize::Normal));
}

#[test]
fn to_tile_exact_values() {
    assert_eq!(to_tile(WorldPoint { x: 0, y: 0 }, 5, TileSize::Normal), key(5, 0, 0));
    let far = WorldPoint { x: u32::MAX, y: u32::MAX };
    assert_eq!(to_tile(far, 19, TileSize::Normal), key(19, 524287, 524287));
    // a quarter of the way across, three quarters down
    let p = WorldPoint { x: 1 << 30, y: 3 << 30 };
    assert_eq!(to_tile(p, 3, TileSize::Normal), key(3, 2, 6));
}

#[test]
fn right_neighbour_offset_is_one_tile_left() {
    let origin = key(4, 7, 9);
    let right = key(4, 8, 9);
    assert_eq!(to_pixel_offset(right, origin, 256), (-256, 0));
}

#[test]
fn pixel_offset_exact_values() {
    let origin = key(4, 7, 9);
    assert_eq!(to_pixel_offset(origin, origin, 512), (0, 0));
    assert_eq!(to_pixel_offset(key(4, 5, 12), origin, 512), (1024, -1536));
}

#[test]
fn radius_expansion_counts() {
    let o = WorldPoint::origin();
    assert_eq!(expand(&request(10, o, 0, true)).len(), 1);
    assert_eq!(expand(&request(10, o, 1, true)).len(), 9);
    assert_eq!(expand(&request(10, o, 2, true)).len(), 25);
    assert_eq!(expand(&request(10, o, 3, true)).len(), 49);
}

#[test]
fn radius_expansion_covers_square() {
    let keys = expand(&request(10, WorldPoint::origin(), 1, true));
    for x in 511..=513u32 {
        for y in 511..=513u32 {
            assert!(keys.contains(&key(10, x, y)));
        }
    }
}

#[test]
fn radius_expansion_clipped_at_edges() {
    let corner = WorldPoint { x: 0, y: 0 };
    let keys = expand(&request(5, corner, 1, true));
    assert_eq!(keys.len(), 4);
    for k in [key(5, 0, 0), key(5, 0, 1), key(5, 1, 0), key(5, 1, 1)] {
        assert!(keys.contains(&k));
    }
    // the whole world at zoom one is four tiles
    assert_eq!(expand(&request(1, WorldPoint::origin(), 1, true)).len(), 4);
    assert_eq!(expand(&request(0, WorldPoint::origin(), u32::MAX, true)).len(), 1);
}

#[test]
fn second_mark_in_flight_is_rejected() {
    let mut cache = CacheIndex::new();
    let k = key(3, 1, 2);
    assert_eq!(cache.lookup(k), DownloadRecord::NotRequested);
    assert_eq!(cache.mark_in_flight(k), Ok(()));
    assert_eq!(cache.lookup(k), DownloadRecord::InFlight);
    assert_eq!(cache.mark_in_flight(k), Err(CacheError::AlreadyInFlight));
    let ev = cache.mark_completed(k, "tiles/3/1/2.png".to_string()).unwrap();
    assert_eq!(ev.key, k);
    assert_eq!(ev.path, "tiles/3/1/2.png");
    assert_eq!(cache.lookup(k), DownloadRecord::Completed("tiles/3/1/2.png".to_string()));
    assert_eq!(cache.mark_in_flight(k), Ok(()));
}

#[test]
fn finishing_without_fetch_is_rejected() {
    let mut cache = CacheIndex::new();
    let k = key(2, 0, 3);
    assert_eq!(cache.mark_completed(k, "p".to_string()), Err(CacheError::NotInFlight));
    assert_eq!(cache.mark_failed(k, "timeout".to_string()), Err(CacheError::NotInFlight));
    assert_eq!(cache.lookup(k), DownloadRecord::NotRequested);
    assert_eq!(cache.mark_in_flight(k), Ok(()));
    assert_eq!(cache.mark_failed(k, "timeout".to_string()), Ok(()));
    assert_eq!(cache.lookup(k), DownloadRecord::Failed("timeout".to_string()));
}

#[test]
fn sizes_are_distinct_keys() {
    let mut cache = CacheIndex::new();
    let small = key(6, 10, 20);
    let large = SlippyTileKey { size: TileSize::Large, ..small };
    assert_eq!(cache.mark_in_flight(small), Ok(()));
    assert_eq!(cache.lookup(large), DownloadRecord::NotRequested);
    assert_eq!(cache.lookup(key(6, 20, 10)), DownloadRecord::NotRequested);
}

#[test]
fn repeated_request_dispatches_nothing() {
    let mut cache = CacheIndex::new();
    let req = request(8, WorldPoint::origin(), 1, true);
    let first = plan_fetch(&mut cache, &req);
    assert_eq!(first.len(), 9);
    for k in &first {
        let path = format!("tiles/{}/{}/{}.png", k.zoom, k.x, k.y);
        let ev = finish_fetch(&mut cache, *k, Ok(path.clone())).unwrap();
        assert_eq!(ev.key, *k);
        assert_eq!(ev.path, path);
    }
    assert!(plan_fetch(&mut cache, &req).is_empty());
}

#[test]
fn request_in_flight_is_not_dispatched_again() {
    let mut cache = CacheIndex::new();
    let req = request(8, WorldPoint::origin(), 1, true);
    assert_eq!(plan_fetch(&mut cache, &req).len(), 9);
    assert!(plan_fetch(&mut cache, &req).is_empty());
    let no_cache = request(8, WorldPoint::origin(), 1, false);
    assert!(plan_fetch(&mut cache, &no_cache).is_empty());
}

#[test]
fn request_without_cache_fetches_stored_tiles_again() {
    let mut cache = CacheIndex::new();
    let req = request(8, WorldPoint::origin(), 0, false);
    let first = plan_fetch(&mut cache, &req);
    assert_eq!(first.len(), 1);
    assert!(finish_fetch(&mut cache, first[0], Ok("t.png".to_string())).is_some());
    assert_eq!(plan_fetch(&mut cache, &req), first);
}

#[test]
fn failure_does_not_stop_other_tiles() {
    let mut cache = CacheIndex::new();
    let req = request(8, WorldPoint::origin(), 1, true);
    let keys = plan_fetch(&mut cache, &req);
    let failed = keys[4];
    assert_eq!(finish_fetch(&mut cache, failed, Err("HTTP 500".to_string())), None);
    let mut events = 0;
    for k in &keys {
        if *k != failed {
            assert!(finish_fetch(&mut cache, *k, Ok("x.png".to_string())).is_some());
            events += 1;
        }
    }
    assert_eq!(events, 8);
    assert_eq!(cache.lookup(failed), DownloadRecord::Failed("HTTP 500".to_string()));
    // a failed tile is eligible again; the stored ones are not
    assert_eq!(plan_fetch(&mut cache, &req), vec![failed]);
}

#[test]
fn completion_of_idle_tile_yields_no_event() {
    let mut cache = CacheIndex::new();
    assert_eq!(finish_fetch(&mut cache, key(1, 0, 0), Ok("a.png".to_string())), None);
    assert_eq!(cache.lookup(key(1, 0, 0)), DownloadRecord::NotRequested);
}

#[test]
fn existing_files_are_honoured() {
    let mut cache = CacheIndex::new();
    let centre = to_tile(WorldPoint::origin(), 8, TileSize::Normal);
    assert!(cache.record_existing(centre, "tiles/8/128/128.png".to_string()));
    assert!(!cache.record_existing(centre, "other.png".to_string()));
    assert_eq!(cache.lookup(centre), DownloadRecord::Completed("tiles/8/128/128.png".to_string()));
    let keys = plan_fetch(&mut cache, &request(8, WorldPoint::origin(), 1, true));
    assert_eq!(keys.len(), 8);
    assert!(!keys.contains(&centre));
}

#[test]
fn longitude_to_world_column() {
    assert_eq!(world_x_of_longitude(0), 1 << 31);
    assert_eq!(world_x_of_longitude(-1_800_000_000), 0);
    assert_eq!(world_x_of_longitude(1_800_000_000), u32::MAX);
    assert_eq!(world_x_of_longitude(900_000_000), 3 << 30);
    // out of range is clamped
    assert_eq!(world_x_of_longitude(-2_000_000_000), 0);
    assert_eq!(world_x_of_longitude(i64::MAX), u32::MAX);
    let p = WorldPoint { x: world_x_of_longitude(0), y: 1 << 31 };
    assert_eq!(p, WorldPoint::origin());
}

#[test]
fn queue_caps_running_fetches() {
    let mut q = FetchQueue::new(2);
    q.enqueue(vec![key(3, 0, 0), key(3, 1, 0), key(3, 2, 0)]);
    assert_eq!(q.waiting_len(), 3);
    assert_eq!(q.start_next(), Some(key(3, 0, 0)));
    assert_eq!(q.start_next(), Some(key(3, 1, 0)));
    assert_eq!(q.start_next(), None);
    assert_eq!(q.running_count(), 2);
    assert_eq!(q.waiting_len(), 1);
    assert!(q.finish_one());
    assert_eq!(q.start_next(), Some(key(3, 2, 0)));
    assert_eq!(q.start_next(), None);
    assert!(q.finish_one());
    assert!(q.finish_one());
    assert!(!q.finish_one());
    assert_eq!(q.running_count(), 0);
}

#[test]
fn queue_keeps_arrival_order() {
    let mut q = FetchQueue::new(DEFAULT_FETCH_LIMIT);
    let mut cache = CacheIndex::new();
    let keys = plan_fetch(&mut cache, &request(8, WorldPoint::origin(), 1, true));
    q.enqueue(keys.clone());
    let mut started = Vec::new();
    while let Some(k) = q.start_next() {
        started.push(k);
    }
    assert_eq!(started, keys[..DEFAULT_FETCH_LIMIT].to_vec());
    assert_eq!(q.waiting_len(), keys.len() - DEFAULT_FETCH_LIMIT);
}

#[test]
fn tile_url_follows_slippy_convention() {
    assert_eq!(
        tile_url("https://tile.openstreetmap.org", key(19, 262144, 1023)),
        "https://tile.openstreetmap.org/19/262144/1023.png"
    );
    assert_eq!(tile_url("http://h", key(0, 0, 0)), "http://h/0/0/0.png");
    assert_eq!(tile_url("", key(10, 10, 9)), "/10/10/9.png");
}

#[test]
fn tile_path_depends_on_key_only() {
    let k = key(1, 1, 0);
    assert_eq!(tile_path("tiles/", k), "tiles/256/1/1/0.png");
    assert_eq!(tile_path("tiles/", k), tile_path("tiles/", k));
    let large = SlippyTileKey { size: TileSize::Large, ..k };
    assert_eq!(tile_path("tiles/", large), "tiles/512/1/1/0.png");
    assert_ne!(tile_path("tiles/", key(1, 1, 0)), tile_path("tiles/", key(1, 0, 1)));
}
