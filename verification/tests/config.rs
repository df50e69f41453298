use nephos::app::{AppController, NoAdapter, NoDevice};
use nephos::{AppCli, Cli};
use nephos::apps::basic;
use nephos::apps::fit;
use nephos::map::{
    Barnsley, Disc, FleurAstrale, Patrick, Pentagon, Pipistrello, Polygon, Sierpinski,
    SillySquare, Tunnel, Weed, Yang,
};

#[test]
fn cli_carries_the_chosen_application() {
    let basic = basic::Cli { n_points: 10, delta_time_ms: 250, out: None, n_gens: None };
    let cli = Cli { app: AppCli::Basic(basic) };
    let AppCli::Basic(inner) = cli.app;
    assert_eq!(inner.n_points, 10);
}

#[test]
fn controller_records_the_exit_request() {
    let mut controller = AppController::new();
    assert!(!controller.exit_requested);
    controller.exit();
    assert!(controller.exit_requested);
}

#[test]
fn construction_errors_name_the_missing_resource() {
    assert_eq!(NoAdapter.message(), "no compatible adapter");
    assert_eq!(NoDevice.message(), "no compatible device");
}

#[test]
fn basic_cli_recording_options_come_together() {
    let complete = basic::Cli {
        n_points: 1000,
        delta_time_ms: 250,
        out: Some(String::from("out.gif")),
        n_gens: Some(100),
    };
    assert!(complete.validate());

    let none = basic::Cli { n_points: 1000, delta_time_ms: 250, out: None, n_gens: None };
    assert!(none.validate());

    let missing_gens = basic::Cli {
        n_points: 1000,
        delta_time_ms: 250,
        out: Some(String::from("out.gif")),
        n_gens: None,
    };
    assert!(!missing_gens.validate());

    let missing_out = basic::Cli {
        n_points: 1000,
        delta_time_ms: 250,
        out: None,
        n_gens: Some(100),
    };
    assert!(!missing_out.validate());
}

#[test]
fn fit_cli_fixes_the_evolver_sizing() {
    let config = fit::Cli {}.config();
    assert_eq!(config.maps_per_set, 6);
    assert_eq!(config.elite_len, 3);
    assert_eq!(config.depth, 15);
    assert_eq!(config.n_children, 20);
    assert_eq!(config.n_points, 50000);
    assert_eq!(config.width(), 63);
}

#[test]
fn presets_expose_their_map_counts() {
    assert_eq!(Sierpinski.map_count(), 3);
    assert_eq!(Yang.map_count(), 2);
    assert_eq!(Barnsley.map_count(), 4);
    assert_eq!(SillySquare.map_count(), 3);
    assert_eq!(Patrick.map_count(), 3);
    assert_eq!(Disc.map_count(), 4);
    assert_eq!(Pipistrello.map_count(), 3);
    assert_eq!(Tunnel.map_count(), 5);
    assert_eq!(Weed.map_count(), 4);
    assert_eq!(FleurAstrale.map_count(), 5);
    assert_eq!(Pentagon.map_count(), 5);
    assert_eq!(Polygon { n: 7 }.map_count(), 7);
}
