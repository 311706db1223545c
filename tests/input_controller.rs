use tp2::coffee_machine::input_controller::InputController as MachineInput;
use tp2::errors::Error;
use tp2::input_controller::InputController;

#[test]
fn test01_get_a_valid_filename_and_shop_id() {
    let controller = MachineInput::new(Some("orders.json".to_string()), Some("0".to_string()))
        .expect("The filename is invalid");
    let expected_file = "orders.json".to_string();
    let got_file = controller.filename;
    assert_eq!(expected_file, got_file);

    let expected_shop_id = 0;
    let got_shop_id = controller.shop_id;
    assert_eq!(expected_shop_id, got_shop_id);
}

#[test]
fn test02_not_get_a_filename() {
    let result = MachineInput::new(None, Some("0".to_string()))
        .expect_err("You must enter a filename of the orders file");
    let err_expected = Error::NotFileInput;

    assert_eq!(result, err_expected);
}

#[test]
fn test03_not_get_a_shop_id() {
    let result = MachineInput::new(Some("orders.json".to_string()), None)
        .expect_err("You must enter a filename of the orders file");
    let err_expected = Error::NotShopIdInput;

    assert_eq!(result, err_expected);
}

#[test]
fn test06_get_an_invalid_shop_id() {
    let result = MachineInput::new(Some("pedidos.json".to_string()), Some("aaaa".to_string()))
        .expect_err("You must enter a valid shop id");

    let err_expected = Error::InvalidShopId;

    assert_eq!(result, err_expected);
}

#[test]
fn shop_id_reads_as_i32_from_str_does() {
    let c = MachineInput::new(Some("o.json".to_string()), Some("-12".to_string())).unwrap();
    assert_eq!(c.shop_id, -12);
    let c = MachineInput::new(Some("o.json".to_string()), Some("+7".to_string())).unwrap();
    assert_eq!(c.shop_id, 7);
    let c = MachineInput::new(Some("o.json".to_string()), Some("-2147483648".to_string())).unwrap();
    assert_eq!(c.shop_id, i32::MIN);
    let e = MachineInput::new(Some("o.json".to_string()), Some("2147483648".to_string()));
    assert_eq!(e.unwrap_err(), Error::InvalidShopId);
    let e = MachineInput::new(Some("o.json".to_string()), Some("".to_string()));
    assert_eq!(e.unwrap_err(), Error::InvalidShopId);
    let e = MachineInput::new(None, None);
    assert_eq!(e.unwrap_err(), Error::NotFileInput);
}

#[test]
fn test01_get_a_valid_filename() {
    let controller =
        InputController::new(Some("orders.json".to_string())).expect("The filename is invalid");
    let expected_file = "orders.json".to_string();
    let got_file = controller.filename;
    assert_eq!(expected_file, got_file);
}

#[test]
fn input_controller_test02_not_get_a_filename() {
    let result =
        InputController::new(None).expect_err("You must enter a filename of the orders file");
    let err_expected = Error::NotFileInput;

    assert_eq!(result, err_expected);
}
