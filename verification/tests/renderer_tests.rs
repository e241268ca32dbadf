use pine16::renderer::{rgb_from_rgb565, Renderer, CANVAS_PIXELS};

fn ram() -> Vec<u16> {
    vec![0u16; 65535]
}

#[test]
fn rgb565_channels() {
    assert_eq!(rgb_from_rgb565(0xFFFF), (255, 255, 255));
    assert_eq!(rgb_from_rgb565(0x0000), (0, 0, 0));
    assert_eq!(rgb_from_rgb565(0xF800), (255, 0, 0));
    assert_eq!(rgb_from_rgb565(0x07E0), (0, 255, 0));
    assert_eq!(rgb_from_rgb565(0x001F), (0, 0, 255));
    assert_eq!(rgb_from_rgb565(0x18E5), (24, 28, 41));
}

#[test]
fn clear_color_fills_the_canvas() {
    let mut memory = ram();
    memory[300] = 0xF800;
    let mut renderer = Renderer::new(false);
    assert!(renderer.draw(&memory));
    assert_eq!(renderer.pixel(0), (255, 0, 0));
    assert_eq!(renderer.pixel(CANVAS_PIXELS - 1), (255, 0, 0));
}

#[test]
fn background_tile_pixels() {
    let mut memory = ram();
    memory[301] = 0xFFFF; // palette color 1 is white
    memory[1000] = 0x1000; // tile 1, row 0: first pixel color 1, others transparent
    memory[3544 + 1] = 0x0001; // background tile at column 1 (x = 8) is tile 1
    let mut renderer = Renderer::new(false);
    assert!(renderer.draw(&memory));
    assert_eq!(renderer.pixel(8), (255, 255, 255));
    assert_eq!(renderer.pixel(9), (0, 0, 0));
    assert_eq!(renderer.pixel(0), (0, 0, 0));
}

#[test]
fn flipped_tile() {
    let mut memory = ram();
    memory[301] = 0xFFFF;
    memory[1000] = 0x1000;
    memory[3544] = 0x0201; // tile 1 flipped on x: its first pixel lands at x = 7
    let mut renderer = Renderer::new(false);
    assert!(renderer.draw(&memory));
    assert_eq!(renderer.pixel(7), (255, 255, 255));
    assert_eq!(renderer.pixel(0), (0, 0, 0));
    memory[3544] = 0x0101; // flipped on y: its first row lands at y = 7
    assert!(renderer.draw(&memory));
    assert_eq!(renderer.pixel(7 * 320), (255, 255, 255));
    assert_eq!(renderer.pixel(0), (0, 0, 0));
}

#[test]
fn sprites_are_drawn_and_culled() {
    let mut memory = ram();
    memory[301] = 0xFFFF;
    memory[1000] = 0x1000;
    memory[4544] = 1;
    memory[4545] = 100;
    memory[4546] = 50;
    let mut renderer = Renderer::new(false);
    assert!(renderer.draw(&memory));
    assert_eq!(renderer.pixel(50 * 320 + 100), (255, 255, 255));
    memory[4545] = 321;
    assert!(renderer.draw(&memory));
    assert_eq!(renderer.pixel(50 * 320 + 100), (0, 0, 0));
}

#[test]
fn tile_255_is_refused_with_guardrails() {
    let mut memory = ram();
    memory[3544] = 0x00FF;
    let mut guarded = Renderer::new(true);
    assert!(!guarded.draw(&memory));
    let mut free = Renderer::new(false);
    assert!(free.draw(&memory));
}

#[test]
fn resize_hides_an_empty_surface() {
    let mut renderer = Renderer::new(false);
    assert!(renderer.is_visible());
    assert!(!renderer.resize_surface(0, 10));
    assert!(!renderer.is_visible());
    assert!(renderer.resize_surface(640, 400));
    assert!(renderer.is_visible());
}

#[test]
fn draw_tile_ids_and_far_positions() {
    let mut memory = ram();
    memory[301] = 0xFFFF;
    memory[1000] = 0x1000;
    let mut free = Renderer::new(false);
    assert!(free.draw_tile(&memory, 300, 0, 0, 0));
    assert_eq!(free.pixel(0), (0, 0, 0));
    assert!(free.draw_tile(&memory, 1, 0, 1_000_000, 5));
    assert!(free.draw_tile(&memory, 1, 0, 2, 3));
    assert_eq!(free.pixel(3 * 320 + 2), (255, 255, 255));
    let mut guarded = Renderer::new(true);
    assert!(!guarded.draw_tile(&memory, 300, 0, 0, 0));
    assert!(!guarded.draw_tile(&memory, 255, 0, 0, 0));
}
