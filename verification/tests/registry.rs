use terra_firma::registry::{ChunkSize, LoadRequest, Tilemaps};

#[test]
fn the_first_request_registers_and_loads() {
    let mut maps = Tilemaps::new();
    let lookup = maps.get_or_load("Main", "maps/map_00/main.tmx");
    assert_eq!(lookup.handle, 0);
    assert_eq!(lookup.chunk_size, ChunkSize::default());
    assert_eq!(
        lookup.request,
        Some(LoadRequest { handle: 0, path: "maps/map_00/main.tmx".to_string() })
    );
    assert_eq!(maps.load_requests(), 1);
}

#[test]
fn asking_twice_loads_once() {
    let mut maps = Tilemaps::new();
    let first = maps.get_or_load("Main", "maps/a.tmx");
    let second = maps.get_or_load("Main", "maps/a.tmx");
    assert_eq!(second.handle, first.handle);
    assert_eq!(second.chunk_size, first.chunk_size);
    assert_eq!(second.request, None);
    assert_eq!(maps.load_requests(), 1);
}

#[test]
fn a_later_path_is_ignored() {
    let mut maps = Tilemaps::new();
    let first = maps.get_or_load("Main", "maps/a.tmx");
    let second = maps.get_or_load("Main", "maps/b.tmx");
    assert_eq!(second.handle, first.handle);
    assert_eq!(second.request, None);
    assert_eq!(maps.load_requests(), 1);
}

#[test]
fn each_name_gets_its_own_handle() {
    let mut maps = Tilemaps::new();
    assert_eq!(maps.get_or_load("Main", "a.tmx").handle, 0);
    assert_eq!(maps.get_or_load("Cave", "a.tmx").handle, 1);
    assert_eq!(maps.get_or_load("main", "a.tmx").handle, 2);
    assert_eq!(maps.get_or_load("Cave", "c.tmx").handle, 1);
    assert_eq!(maps.load_requests(), 3);
}

#[test]
fn get_does_not_register() {
    let mut maps = Tilemaps::new();
    assert_eq!(maps.get("Main"), None);
    assert_eq!(maps.load_requests(), 0);
    maps.get_or_load("Main", "a.tmx");
    assert_eq!(maps.get("Main"), Some((0, ChunkSize { width: 64, height: 64 })));
    assert_eq!(maps.get("Cave"), None);
}

#[test]
fn the_default_chunk_is_a_square_of_64() {
    assert_eq!(ChunkSize::default(), ChunkSize { width: 64, height: 64 });
}
