use tp2::errors::Error;
use tp2::points_handler::PointsHandler;

#[test]
pub fn test_01_add_points_to_new_client() {
    let mut client_points = PointsHandler::new();

    let got = client_points.get_client(0);
    assert_eq!(got.0, 0);
}

#[test]
pub fn test_02_add_points_to_existent_client() {
    let mut client_points = PointsHandler::new();

    client_points
        .update_points(0, 10)
        .expect("Error when updating points");
    let got = client_points.get_client(0);
    assert_eq!(got.0, 10);
}

#[test]
pub fn test_03_subtract_points_to_client_with_enough_points() {
    let mut client_points = PointsHandler::new();

    client_points
        .update_points(0, 10)
        .expect("Error when adding points");
    client_points
        .update_points(0, -5)
        .expect("Error when subtracting points");
    let got = client_points.get_client(0);

    assert_eq!(got.0, 5);
}

#[test]
pub fn test_04_subtract_points_to_client_with_not_enough_points() {
    let mut client_points = PointsHandler::new();

    client_points
        .update_points(0, 10)
        .expect("Error when adding points");
    let err_got = client_points
        .update_points(0, -15)
        .expect_err("Error when subtracting points");

    assert_eq!(err_got, Error::NotEnoughPoints);
}

#[test]
fn rejected_update_leaves_the_balance() {
    let mut h = PointsHandler::new();
    h.update_points(3, 10).unwrap();
    assert_eq!(h.update_points(3, -11), Err(Error::NotEnoughPoints));
    assert_eq!(h.get_client(3), (10, false));
    assert_eq!(h.update_points(3, -10), Ok(()));
    assert_eq!(h.get_client(3), (0, false));
}

#[test]
fn update_beyond_i32_is_refused() {
    let mut h = PointsHandler::new();
    h.update_points(1, i32::MAX).unwrap();
    assert_eq!(h.update_points(1, 1), Err(Error::PointsOverflow));
    assert_eq!(h.get_client(1), (i32::MAX, false));
}

#[test]
fn second_block_is_refused_and_keeps_the_balance() {
    let mut h = PointsHandler::new();
    h.update_points(4, 30).unwrap();
    assert_eq!(h.block(4), Ok(()));
    assert_eq!(h.block(4), Err(Error::UserAlreadyBlocked));
    assert_eq!(h.get_client(4), (30, true));
}

#[test]
fn unblock_is_idempotent() {
    let mut h = PointsHandler::new();
    h.unblock(5);
    assert_eq!(h.get_client(5), (0, false));
    h.update_points(6, 2).unwrap();
    h.block(6).unwrap();
    h.unblock(6);
    h.unblock(6);
    assert_eq!(h.get_client(6), (2, false));
}

#[test]
fn acumulate_adds_when_the_update_is_valid() {
    let mut h = PointsHandler::default();
    h.acumulate(2, 15);
    assert_eq!(h.get_client(2), (15, false));
    h.acumulate(2, -20);
    assert_eq!(h.get_client(2), (15, false));
}
